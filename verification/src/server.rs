//! The server: its connections and its resources.
use crate::client::{Client, ClientState, ClientView};
use crate::handshake::do_handshake;
use crate::http::{not_found, request_path, wants_upgrade, ContentType, RequestText};
use crate::run::{RunAction, RunEvent, RunLoop};
use crate::text::{ends_with, utf8_text};
use vstd::hash_map::StringHashMap;
use vstd::prelude::*;
use vstd::string::*;

verus! {

/// How many connections a server has slots for.
pub const MAX_CLIENTS: usize = 1024;

/// A file that the server hands out.
pub struct Resource {
    content_type: ContentType,
    path: String,
}

/// What a [`Resource`] is, in mathematical terms.
pub struct ResourceView {
    /// What the file holds.
    pub content_type: ContentType,
    /// Where the file is.
    pub path: Seq<char>,
}

impl View for Resource {
    type V = ResourceView;

    closed spec fn view(&self) -> ResourceView {
        ResourceView { content_type: self.content_type, path: self.path@ }
    }
}

/// The server.
pub struct Server {
    clients: Vec<Option<Client>>,
    resources: StringHashMap<Resource>,
    run: RunLoop,
}

/// What a [`Server`] is, in mathematical terms.
#[verifier::ext_equal]
pub struct ServerView {
    /// The connection that each slot has, if any.
    pub slots: Seq<Option<ClientView>>,
    /// The resource that each URL stands for.
    pub resources: Map<Seq<char>, ResourceView>,
    /// Where the main loop stands.
    pub run: RunLoop,
}

/// What a slot has, in mathematical terms.
pub open spec fn slot_view(slot: Option<Client>) -> Option<ClientView> {
    match slot {
        None => None,
        Some(client) => Some(client@),
    }
}

impl View for Server {
    type V = ServerView;

    closed spec fn view(&self) -> ServerView {
        ServerView {
            slots: self.clients@.map_values(|slot: Option<Client>| slot_view(slot)),
            resources: self.resources@.map_values(|resource: Resource| resource@),
            run: self.run,
        }
    }
}

impl ServerView {
    /// What holds of every server.
    pub open spec fn wf(self) -> bool {
        &&& self.slots.len() == MAX_CLIENTS
        &&& forall|i: int|
            0 <= i < self.slots.len() && (#[trigger] self.slots[i]) is Some ==> {
                &&& self.slots[i]->0.wf()
                &&& self.slots[i]->0.id == i
            }
        &&& self.run.wf()
    }

    /// Whether slot `id` has a connection.
    pub open spec fn has(self, id: int) -> bool {
        0 <= id < self.slots.len() && self.slots[id] is Some
    }

    /// The server with `slot` in slot `id`.
    pub open spec fn with_slot(self, id: int, slot: Option<ClientView>) -> ServerView {
        ServerView { slots: self.slots.update(id, slot), ..self }
    }
}

/// The content type of the file at `path`, by the path's ending.
pub open spec fn type_of(path: Seq<char>) -> Option<ContentType> {
    if ".html"@.is_suffix_of(path) {
        Some(ContentType::Html)
    } else if ".js"@.is_suffix_of(path) {
        Some(ContentType::Js)
    } else {
        None
    }
}

/// Finds the content type of the file at `path`.
pub fn content_type_of(path: &str) -> (content_type: Option<ContentType>)
    ensures
        content_type == type_of(path@),
{
    if ends_with(path, ".html") {
        Some(ContentType::Html)
    } else if ends_with(path, ".js") {
        Some(ContentType::Js)
    } else {
        None
    }
}

impl Default for Server {
    /// A server without connections or resources.
    fn default() -> (server: Server)
        ensures
            server@.wf(),
            server@.slots == Seq::new(MAX_CLIENTS as nat, |i: int| None::<ClientView>),
            server@.resources == Map::<Seq<char>, ResourceView>::empty(),
            server@.run == RunLoop::initial(),
    {
        let mut clients: Vec<Option<Client>> = Vec::new();
        let mut i: usize = 0;
        while i < MAX_CLIENTS
            invariant
                i <= MAX_CLIENTS,
                clients@.len() == i,
                forall|j: int| 0 <= j < i ==> (#[trigger] clients@[j]) is None,
            decreases MAX_CLIENTS - i,
        {
            clients.push(None);
            i = i + 1;
        }
        let server = Server { clients, resources: StringHashMap::new(), run: RunLoop::new() };
        assert(server@.slots =~= Seq::new(MAX_CLIENTS as nat, |i: int| None::<ClientView>));
        assert(server@.resources =~= Map::<Seq<char>, ResourceView>::empty());
        server
    }
}

impl Server {
    /// Hands out the file at `path` to those who ask for `url`.
    pub fn resource(&mut self, url: &str, path: &str)
        requires
            type_of(path@) is Some,
        ensures
            final(self)@ == (ServerView {
                resources: old(self)@.resources.insert(
                    url@,
                    ResourceView { content_type: type_of(path@)->0, path: path@ },
                ),
                ..old(self)@
            }),
    {
        let content_type = content_type_of(path).unwrap();
        let ghost before = self@.resources;
        let resource = Resource { content_type, path: path.to_owned() };
        let ghost made = resource@;
        self.resources.insert(url.to_owned(), resource);
        assert(self@.resources =~= before.insert(url@, made));
    }

    /// Lets the server tick, with `interval` between two ticks.
    pub fn on_tick(&mut self, interval: u128)
        requires
            old(self)@.wf(),
        ensures
            final(self)@ == (ServerView {
                run: RunLoop { interval: Some(interval), ..old(self)@.run },
                ..old(self)@
            }),
            final(self)@.wf(),
    {
        self.run.interval = Some(interval);
    }

    /// Takes the main loop on from where it stands, now that `event` has happened, and says
    /// what to do next.
    pub fn run(&mut self, event: RunEvent) -> (action: RunAction)
        requires
            old(self)@.wf(),
            old(self)@.run.accepts(event),
        ensures
            final(self)@ == (ServerView { run: old(self)@.run.next(event).0, ..old(self)@ }),
            action == old(self)@.run.next(event).1,
            final(self)@.wf(),
    {
        self.run.step(event)
    }

    /// Whether slot `id` has a connection.
    pub fn has_client(&self, id: usize) -> (b: bool)
        ensures
            b == self@.has(id as int),
    {
        id < self.clients.len() && self.clients[id].is_some()
    }

    /// Whether the connection of slot `id` has been upgraded.
    pub fn state_of(&self, id: usize) -> (state: ClientState)
        requires
            self@.has(id as int),
        ensures
            state == self@.slots[id as int]->0.state,
    {
        self.clients[id].as_ref().unwrap().state()
    }

    /// The connection that slot `id` has.
    pub fn client_mut(&mut self, id: usize) -> (client: &mut Client)
        requires
            old(self)@.has(id as int),
        ensures
            old(self)@.slots[id as int] == Some(client@),
            final(self)@ == old(self)@.with_slot(id as int, Some(final(client)@)),
    {
        self.clients[id].as_mut().unwrap()
    }

    /// Gives the first free slot to a new connection, unless none is free.
    pub fn accept(&mut self) -> (id: Option<usize>)
        requires
            old(self)@.wf(),
        ensures
            final(self)@.wf(),
            match id {
                None => {
                    &&& forall|i: int| 0 <= i < MAX_CLIENTS ==> old(self)@.has(i)
                    &&& final(self)@ == old(self)@
                },
                Some(id) => {
                    &&& id < MAX_CLIENTS
                    &&& !old(self)@.has(id as int)
                    &&& forall|i: int| 0 <= i < id ==> old(self)@.has(i)
                    &&& final(self)@ == old(self)@.with_slot(
                        id as int,
                        Some(crate::client::fresh(id as int)),
                    )
                },
            },
    {
        let ghost before = self@;
        let mut id: usize = 0;
        while id < self.clients.len()
            invariant
                self@ == before,
                before == old(self)@,
                before.wf(),
                id <= self.clients@.len() == MAX_CLIENTS,
                forall|i: int| 0 <= i < id ==> before.has(i),
            decreases self.clients@.len() - id,
        {
            assert(before.slots[id as int] == slot_view(self.clients@[id as int]));
            if self.clients[id].is_none() {
                self.clients[id] = Some(Client::new(id));
                assert(self@ =~= before.with_slot(
                    id as int,
                    Some(crate::client::fresh(id as int)),
                ));
                return Some(id);
            }
            id = id + 1;
        }
        None
    }

    /// Frees slot `id`.
    pub fn remove(&mut self, id: usize)
        requires
            old(self)@.wf(),
            id < MAX_CLIENTS,
        ensures
            final(self)@ == old(self)@.with_slot(id as int, None),
            final(self)@.wf(),
    {
        let ghost before = self@;
        self.clients[id] = None;
        assert(self@ =~= before.with_slot(id as int, None));
    }
}

/// What is to be done about a request.
pub enum Served {
    /// Nothing: the request is no text.
    Ignored,
    /// The connection is to be upgraded with this reply.
    Upgrade(String),
    /// The request asks for an upgrade and brings no key, which the server cannot answer.
    NoKey,
    /// What is asked for is not there; this is the response.
    NotFound(String),
    /// The file at `path` is to be handed out.
    File {
        /// Where the file is.
        path: String,
        /// What it holds.
        content_type: ContentType,
    },
    /// The request asks for nothing, which the server cannot answer.
    NoPath,
}

/// What a [`Served`] is, in mathematical terms.
pub enum ServedView {
    /// See [`Served::Ignored`].
    Ignored,
    /// See [`Served::Upgrade`].
    Upgrade(Seq<char>),
    /// See [`Served::NoKey`].
    NoKey,
    /// See [`Served::NotFound`].
    NotFound(Seq<char>),
    /// See [`Served::File`].
    File {
        /// Where the file is.
        path: Seq<char>,
        /// What it holds.
        content_type: ContentType,
    },
    /// See [`Served::NoPath`].
    NoPath,
}

impl View for Served {
    type V = ServedView;

    open spec fn view(&self) -> ServedView {
        match self {
            Served::Ignored => ServedView::Ignored,
            Served::Upgrade(reply) => ServedView::Upgrade(reply@),
            Served::NoKey => ServedView::NoKey,
            Served::NotFound(response) => ServedView::NotFound(response@),
            Served::File { path, content_type } => ServedView::File {
                path: path@,
                content_type: *content_type,
            },
            Served::NoPath => ServedView::NoPath,
        }
    }
}

/// What is to be done about a request that arrived as `bytes`.
pub open spec fn serve(
    bytes: Seq<u8>,
    resources: Map<Seq<char>, ResourceView>,
) -> ServedView {
    let request = vstd::utf8::decode_utf8(bytes);
    if !vstd::utf8::valid_utf8(bytes) {
        ServedView::Ignored
    } else if crate::http::asks_upgrade(request) {
        match crate::http::key_among(crate::text::lines(request)) {
            None => ServedView::NoKey,
            Some(key) => ServedView::Upgrade(
                crate::handshake::upgrade_reply(crate::handshake::accept_of(key)),
            ),
        }
    } else {
        match crate::http::path_of(request) {
            None => ServedView::NoPath,
            Some(url) => if resources.contains_key(url) {
                ServedView::File {
                    path: resources[url].path,
                    content_type: resources[url].content_type,
                }
            } else {
                ServedView::NotFound(crate::http::not_found_text())
            },
        }
    }
}

impl Server {
    /// Looks up what a request asks for.
    fn look_up(&self, request: &RequestText) -> (served: Served)
        ensures
            served@ == match crate::http::path_of(request@) {
                None => ServedView::NoPath,
                Some(url) => if self@.resources.contains_key(url) {
                    ServedView::File {
                        path: self@.resources[url].path,
                        content_type: self@.resources[url].content_type,
                    }
                } else {
                    ServedView::NotFound(crate::http::not_found_text())
                },
            },
    {
        match request_path(request) {
            None => Served::NoPath,
            Some(url) => match self.resources.get(url.as_str()) {
                None => Served::NotFound(not_found()),
                Some(resource) => Served::File {
                    path: resource.path.clone(),
                    content_type: resource.content_type,
                },
            },
        }
    }

    /// Takes all that has arrived on the connection of slot `id` as a request, and decides
    /// what is to be done about it.
    ///
    /// After [`Served::Upgrade`] the connection counts as upgraded once
    /// [`Server::on_connected`] has been told that the connect handler went well.
    pub fn serve_content(&mut self, id: usize) -> (served: Served)
        requires
            old(self)@.wf(),
            old(self)@.has(id as int),
        ensures
            ({
                let client = old(self)@.slots[id as int]->0;
                let request = vstd::utf8::decode_utf8(client.rx);
                let key = crate::http::key_among(crate::text::lines(request));
                &&& served@ == serve(client.rx, old(self)@.resources)
                &&& served is Upgrade ==> crate::handshake::sha1_of(
                    crate::handshake::challenge(key->0),
                ).len() == 20 && crate::handshake::accept_of(key->0).len() == 28
                &&& final(self)@ == old(self)@.with_slot(
                    id as int,
                    Some(client.consumed(client.rx.len() as int)),
                )
            }),
            final(self)@.wf(),
    {
        let ghost before = self@;
        let client = self.client_mut(id);
        let ghost was = client@;
        let bytes = client.read(crate::ring::CAPACITY);
        assert(bytes@ =~= was.rx);
        assert(self@ == before.with_slot(id as int, Some(was.consumed(was.rx.len() as int))));
        match utf8_text(bytes) {
            None => Served::Ignored,
            Some(text) => {
                let request = RequestText::new(text);
                if wants_upgrade(&request) {
                    match do_handshake(&request) {
                        None => Served::NoKey,
                        Some(reply) => Served::Upgrade(reply),
                    }
                } else {
                    self.look_up(&request)
                }
            },
        }
    }

    /// Begins to go through the upgraded connections.
    pub fn clients_iter_mut(&self) -> (iter: ClientIterMut)
        ensures
            iter@ == 0,
    {
        ClientIterMut { pos: 0 }
    }
}

/// Goes through the upgraded connections of a server, by slot.
pub struct ClientIterMut {
    pos: usize,
}

impl View for ClientIterMut {
    type V = int;

    /// The first slot that has not been looked at.
    closed spec fn view(&self) -> int {
        self.pos as int
    }
}

/// Whether a slot has an upgraded connection.
pub open spec fn upgraded(slot: Option<ClientView>) -> bool {
    slot is Some && slot->0.state == ClientState::PostHandshake
}

/// The first slot from `pos` on that has an upgraded connection, or the number of slots.
pub open spec fn next_upgraded(slots: Seq<Option<ClientView>>, pos: int) -> int
    decreases slots.len() - pos,
{
    if pos >= slots.len() || upgraded(slots[pos]) {
        pos
    } else {
        next_upgraded(slots, pos + 1)
    }
}

impl ClientIterMut {
    /// The position is that of a slot, or lies behind the last.
    #[verifier::type_invariant]
    spec fn wf(self) -> bool {
        self.pos <= MAX_CLIENTS
    }

    /// The next upgraded connection of `server`, if there is one.
    pub fn next<'a>(&mut self, server: &'a mut Server) -> (client: Option<&'a mut Client>)
        requires
            old(server)@.wf(),
        ensures
            ({
                let id = next_upgraded(old(server)@.slots, old(self)@);
                match client {
                    None => {
                        &&& id == MAX_CLIENTS
                        &&& final(self)@ == id
                        &&& final(server)@ == old(server)@
                    },
                    Some(client) => {
                        &&& id < MAX_CLIENTS
                        &&& final(self)@ == id + 1
                        &&& old(server)@.slots[id] == Some(client@)
                        &&& final(server)@ == old(server)@.with_slot(id, Some(final(client)@))
                    },
                }
            }),
    {
        proof {
            use_type_invariant(&*self);
        }
        let ghost slots = server@.slots;
        let ghost start = self@;
        while self.pos < server.clients.len()
            invariant
                *server == *old(server),
                slots == old(server)@.slots,
                start == old(self)@,
                server.clients@.len() == MAX_CLIENTS,
                self.pos <= MAX_CLIENTS,
                next_upgraded(slots, self.pos as int) == next_upgraded(slots, start),
            decreases MAX_CLIENTS - self.pos,
        {
            let id: usize = self.pos;
            assert(slots[id as int] == slot_view(server.clients@[id as int]));
            self.pos = id + 1;
            if let Some(client) = &server.clients[id] {
                match client.state() {
                    ClientState::PreHandshake => {},
                    ClientState::PostHandshake => {
                        return Some(server.client_mut(id));
                    },
                }
            }
        }
        None
    }
}

/// Who asks for a URL by a plain request gets the file that the URL was last given to, with the
/// content type of its ending.
pub proof fn law_resource_handed_out(
    resources: Map<Seq<char>, ResourceView>,
    method: Seq<char>,
    url: Seq<char>,
    rest: Seq<char>,
    path: Seq<char>,
)
    requires
        method.len() > 0,
        url.len() > 0,
        forall|i: int|
            0 <= i < method.len() ==> !crate::text::white_space(#[trigger] method[i]),
        forall|i: int| 0 <= i < url.len() ==> !crate::text::white_space(#[trigger] url[i]),
        type_of(path) is Some,
        !crate::http::asks_upgrade(method + seq![' '] + url + seq![' '] + rest),
    ensures
        ({
            let request = method + seq![' '] + url + seq![' '] + rest;
            let content_type = type_of(path)->0;
            let known = resources.insert(url, ResourceView { content_type, path });
            serve(vstd::utf8::encode_utf8(request), known) == ServedView::File {
                path,
                content_type,
            }
        }),
{
    let request = method + seq![' '] + url + seq![' '] + rest;
    vstd::utf8::encode_utf8_valid_utf8(request);
    vstd::utf8::encode_utf8_decode_utf8(request);
    crate::http::law_request_line(method, url, rest);
}

/// Who asks for a URL that stands for nothing by a plain request is told so.
pub proof fn law_unknown_url_not_found(
    resources: Map<Seq<char>, ResourceView>,
    method: Seq<char>,
    url: Seq<char>,
    rest: Seq<char>,
)
    requires
        method.len() > 0,
        url.len() > 0,
        forall|i: int|
            0 <= i < method.len() ==> !crate::text::white_space(#[trigger] method[i]),
        forall|i: int| 0 <= i < url.len() ==> !crate::text::white_space(#[trigger] url[i]),
        !resources.contains_key(url),
        !crate::http::asks_upgrade(method + seq![' '] + url + seq![' '] + rest),
    ensures
        serve(
            vstd::utf8::encode_utf8(method + seq![' '] + url + seq![' '] + rest),
            resources,
        ) == ServedView::NotFound(crate::http::not_found_text()),
{
    let request = method + seq![' '] + url + seq![' '] + rest;
    vstd::utf8::encode_utf8_valid_utf8(request);
    vstd::utf8::encode_utf8_decode_utf8(request);
    crate::http::law_request_line(method, url, rest);
}

/// A request that asks for an upgrade on some line, and brings a key on a line after which none
/// brings another, is answered with what belongs to that key.
pub proof fn law_upgrade_answered(
    resources: Map<Seq<char>, ResourceView>,
    request: Seq<char>,
    upgrade: int,
    header: int,
    key: Seq<char>,
)
    requires
        0 <= upgrade < crate::text::lines(request).len(),
        "Connection: Upgrade"@.is_prefix_of(crate::text::lines(request)[upgrade]),
        0 <= header < crate::text::lines(request).len(),
        crate::text::lines(request)[header] == "Sec-WebSocket-Key: "@ + key,
        forall|j: int|
            header < j < crate::text::lines(request).len() ==> crate::http::key_in(
                #[trigger] crate::text::lines(request)[j],
            ) is None,
    ensures
        serve(vstd::utf8::encode_utf8(request), resources) == ServedView::Upgrade(
            crate::handshake::upgrade_reply(crate::handshake::accept_of(key)),
        ),
{
    vstd::utf8::encode_utf8_valid_utf8(request);
    vstd::utf8::encode_utf8_decode_utf8(request);
    crate::http::law_key_header(key);
    crate::http::law_last_key_decides(crate::text::lines(request), header);
}

/// The slots that a [`ClientIterMut`] yields from `pos` on, while no slot changes.
pub open spec fn visits(slots: Seq<Option<ClientView>>, pos: int) -> Seq<int>
    decreases slots.len() - pos,
{
    let id = next_upgraded(slots, pos);
    if id < pos || id >= slots.len() {
        Seq::empty()
    } else {
        seq![id] + visits(slots, id + 1)
    }
}

/// `next_upgraded` passes over no upgraded connection.
proof fn lemma_next_upgraded(slots: Seq<Option<ClientView>>, pos: int)
    requires
        0 <= pos <= slots.len(),
    ensures
        pos <= next_upgraded(slots, pos) <= slots.len(),
        next_upgraded(slots, pos) < slots.len() ==> upgraded(
            slots[next_upgraded(slots, pos)],
        ),
        forall|i: int| pos <= i < next_upgraded(slots, pos) ==> !upgraded(#[trigger] slots[i]),
    decreases slots.len() - pos,
{
    if pos < slots.len() && !upgraded(slots[pos]) {
        lemma_next_upgraded(slots, pos + 1);
    }
}

/// Going through the connections yields every upgraded one, no other, and each once, by slot.
pub proof fn law_iteration(slots: Seq<Option<ClientView>>, pos: int)
    requires
        0 <= pos <= slots.len(),
    ensures
        forall|id: int|
            #[trigger] visits(slots, pos).contains(id) <==> pos <= id < slots.len() && slots[id]
                is Some && slots[id]->0.state == ClientState::PostHandshake,
        forall|i: int, j: int|
            0 <= i < j < visits(slots, pos).len() ==> visits(slots, pos)[i] < visits(
                slots,
                pos,
            )[j],
    decreases slots.len() - pos,
{
    lemma_next_upgraded(slots, pos);
    let id = next_upgraded(slots, pos);
    let all = visits(slots, pos);
    if id < slots.len() {
        let later = visits(slots, id + 1);
        law_iteration(slots, id + 1);
        assert(all =~= seq![id] + later);
        assert forall|k: int|
            #[trigger] all.contains(k) <==> pos <= k < slots.len() && upgraded(slots[k]) by {
            if all.contains(k) {
                let i = choose|i: int| 0 <= i < all.len() && all[i] == k;
                if i > 0 {
                    assert(later[i - 1] == k);
                    assert(later.contains(k));
                }
            }
            if pos <= k < slots.len() && upgraded(slots[k]) {
                if k == id {
                    assert(all[0] == k);
                } else {
                    assert(later.contains(k));
                    let i = choose|i: int| 0 <= i < later.len() && later[i] == k;
                    assert(all[i + 1] == k);
                }
            }
        }
        assert forall|i: int, j: int| 0 <= i < j < all.len() implies all[i] < all[j] by {
            assert(later.contains(later[j - 1]));
            if i > 0 {
                assert(later[i - 1] < later[j - 1]);
            }
        }
    }
}

/// The next upgraded connection from a slot on is the first that is there and has been upgraded,
/// and there is none where no slot has one.
pub proof fn law_next_upgraded(slots: Seq<Option<ClientView>>, pos: int)
    requires
        0 <= pos <= slots.len(),
    ensures
        ({
            let id = next_upgraded(slots, pos);
            &&& pos <= id <= slots.len()
            &&& id < slots.len() ==> slots[id] is Some && slots[id]->0.state
                == ClientState::PostHandshake
            &&& forall|i: int|
                pos <= i < id ==> (#[trigger] slots[i]) is None || slots[i]->0.state
                    == ClientState::PreHandshake
        }),
    decreases slots.len() - pos,
{
    if pos < slots.len() && !(slots[pos] is Some && slots[pos]->0.state
        == ClientState::PostHandshake) {
        law_next_upgraded(slots, pos + 1);
    }
}

/// From its beginning to its end, going through the connections of a server reaches slot `id`
/// exactly where that has a connection that has been upgraded.
pub proof fn law_all_upgraded_reached(server: ServerView, id: int)
    requires
        server.wf(),
        0 <= id < 1024,
    ensures
        MAX_CLIENTS == 1024,
        server.slots.len() == 1024,
        visits(server.slots, 0).contains(id) <==> server.slots[id] is Some
            && server.slots[id]->0.state == ClientState::PostHandshake,
{
    law_iteration(server.slots, 0);
}

/// A slot has a connection where its place holds one; to fill or free a slot changes that place and
/// nothing else.
pub proof fn law_slots(server: ServerView, id: int, slot: Option<ClientView>, other: int)
    requires
        0 <= id < server.slots.len(),
        0 <= other < server.slots.len(),
    ensures
        server.has(id) <==> server.slots[id] is Some,
        forall|k: int| k < 0 || k >= server.slots.len() ==> !#[trigger] server.has(k),
        ({
            let after = server.with_slot(id, slot);
            &&& after.slots.len() == server.slots.len()
            &&& after.slots[id] == slot
            &&& other != id ==> after.slots[other] == server.slots[other]
            &&& after.resources == server.resources
            &&& after.run == server.run
        }),
{
}

/// A slot's connection is seen as what it is.
pub proof fn law_slot_view(client: Client)
    ensures
        slot_view(Some(client)) == Some(client@),
        slot_view(None) is None,
{
}

/// Slots are numbered from 0 up to 1024, each connection knows its own, and what a connection holds
/// is within bounds; that is all that is asked of a server besides its main loop.
pub proof fn law_server_wf(server: ServerView)
    ensures
        server.wf() <==> {
            &&& server.slots.len() == 1024
            &&& server.run.wf()
            &&& forall|i: int|
                0 <= i < 1024 && (#[trigger] server.slots[i]) is Some ==> {
                    let client = server.slots[i]->0;
                    &&& client.id == i
                    &&& client.rx.len() <= 1024
                    &&& 0 <= client.rx_start < 1024
                    &&& client.tx.len() <= 1024
                    &&& 0 <= client.payload_len < 126
                    &&& client.masking_key.len() == 4
                }
        },
{
}

/// A path that ends in `.html` is that of a page, and one that ends in `.js` that of a script,
/// whatever stands before.
pub proof fn law_type_by_ending(stem: Seq<char>)
    ensures
        type_of(stem + ".html"@) == Some(ContentType::Html),
        type_of(stem + ".js"@) == Some(ContentType::Js),
{
    reveal_strlit(".html");
    reveal_strlit(".js");
    let page = stem + ".html"@;
    let script = stem + ".js"@;
    let n = stem.len() as int;
    assert(page.subrange(n, n + 5) =~= ".html"@);
    assert(script.subrange(n, n + 3) =~= ".js"@);
    if ".html"@.is_suffix_of(script) {
        assert(script.subrange(n + 3 - 5, n + 3)[4] == ".html"@[4]);
        assert(script[n + 2] == 's');
    }
}

/// Only such paths have a content type.
pub proof fn law_no_other_type(path: Seq<char>)
    requires
        !".html"@.is_suffix_of(path),
        !".js"@.is_suffix_of(path),
    ensures
        type_of(path) is None,
{
}

/// A request none of whose lines begins with `Connection: Upgrade` is served by what it asks for,
/// its second word: by the file that this stands for, or by being told that there is none; and it
/// cannot be served where it has no second word.
pub proof fn law_plain_request_served(
    resources: Map<Seq<char>, ResourceView>,
    request: Seq<char>,
)
    requires
        forall|i: int|
            0 <= i < crate::text::lines(request).len() ==> !"Connection: Upgrade"@.is_prefix_of(
                #[trigger] crate::text::lines(request)[i],
            ),
    ensures
        ({
            let served = serve(vstd::utf8::encode_utf8(request), resources);
            let words = crate::text::words(request);
            &&& words.len() < 2 ==> served == ServedView::NoPath
            &&& words.len() >= 2 && resources.contains_key(words[1]) ==> served
                == ServedView::File {
                path: resources[words[1]].path,
                content_type: resources[words[1]].content_type,
            }
            &&& words.len() >= 2 && !resources.contains_key(words[1]) ==> served
                == ServedView::NotFound("HTTP/1.1 404 Not Found\r\n\r\n"@)
        }),
{
    vstd::utf8::encode_utf8_valid_utf8(request);
    vstd::utf8::encode_utf8_decode_utf8(request);
}

/// Who asks for a URL by a request that is none for an upgrade gets the page or script that the URL
/// was last given to, with the content type that its ending tells.
pub proof fn law_page_and_script(
    resources: Map<Seq<char>, ResourceView>,
    method: Seq<char>,
    url: Seq<char>,
    rest: Seq<char>,
    stem: Seq<char>,
    script: bool,
)
    requires
        method.len() > 0,
        url.len() > 0,
        forall|i: int|
            0 <= i < method.len() ==> !crate::text::white_space(#[trigger] method[i]),
        forall|i: int| 0 <= i < url.len() ==> !crate::text::white_space(#[trigger] url[i]),
        ({
            let request = method + seq![' '] + url + seq![' '] + rest;
            forall|i: int|
                0 <= i < crate::text::lines(request).len()
                    ==> !"Connection: Upgrade"@.is_prefix_of(
                    #[trigger] crate::text::lines(request)[i],
                )
        }),
    ensures
        ({
            let request = method + seq![' '] + url + seq![' '] + rest;
            let path = stem + if script {
                ".js"@
            } else {
                ".html"@
            };
            let known = resources.insert(
                url,
                ResourceView { content_type: type_of(path)->0, path },
            );
            &&& type_of(path) is Some
            &&& serve(vstd::utf8::encode_utf8(request), known) == ServedView::File {
                path,
                content_type: if script {
                    ContentType::Js
                } else {
                    ContentType::Html
                },
            }
        }),
{
    let request = method + seq![' '] + url + seq![' '] + rest;
    let path = stem + if script {
        ".js"@
    } else {
        ".html"@
    };
    law_type_by_ending(stem);
    assert(!crate::http::asks_upgrade(request));
    law_resource_handed_out(resources, method, url, rest, path);
}

/// A request with a line that begins with `Connection: Upgrade`, whose last line that brings a key
/// is `header`, is answered with a reply whose fourth line holds the base64 of the digest of that
/// key and the fixed text.
pub proof fn law_upgrade_request_answered(
    resources: Map<Seq<char>, ResourceView>,
    request: Seq<char>,
    upgrade: int,
    header: int,
    between: Seq<char>,
    key: Seq<char>,
)
    requires
        0 <= upgrade < crate::text::lines(request).len(),
        "Connection: Upgrade"@.is_prefix_of(crate::text::lines(request)[upgrade]),
        0 <= header < crate::text::lines(request).len(),
        !between.contains(' '),
        crate::text::lines(request)[header] == "Sec-WebSocket-Key"@ + between + seq![' '] + key,
        forall|j: int|
            header < j < crate::text::lines(request).len() ==> !"Sec-WebSocket-Key"@.is_prefix_of(
                #[trigger] crate::text::lines(request)[j],
            ) || !crate::text::lines(request)[j].contains(' '),
    ensures
        ({
            let served = serve(vstd::utf8::encode_utf8(request), resources);
            let digest = crate::handshake::sha1_of(
                vstd::utf8::encode_utf8(key) + vstd::utf8::encode_utf8(
                    "258EAFA5-E914-47DA-95CA-C5AB0DC85B11"@,
                ),
            );
            &&& served == ServedView::Upgrade(
                crate::handshake::upgrade_reply(crate::handshake::base64_of(digest)),
            )
            &&& crate::text::lines(served->Upgrade_0) == seq![
                "HTTP/1.1 101 Switching Protocols"@,
                "Upgrade: websocket"@,
                "Connection: Upgrade"@,
                "Sec-WebSocket-Accept: "@ + crate::handshake::base64_of(digest),
                Seq::<char>::empty(),
            ]
        }),
{
    let all = crate::text::lines(request);
    vstd::utf8::encode_utf8_valid_utf8(request);
    vstd::utf8::encode_utf8_decode_utf8(request);
    crate::http::law_key_line(between, key);
    assert forall|j: int| header < j < all.len() implies crate::http::key_in(
        #[trigger] all[j],
    ) is None by {
        crate::http::law_line_without_key(all[j]);
    }
    crate::http::law_last_key_decides(all, header);
    crate::handshake::law_answer(key);
    crate::handshake::lemma_base64_one_line(
        crate::handshake::sha1_of(crate::handshake::challenge(key)),
    );
    crate::handshake::law_reply_read(crate::handshake::accept_of(key));
}

/// A request with a line that begins with `Connection: Upgrade`, none of whose lines brings a key,
/// cannot be answered.
pub proof fn law_upgrade_without_key(
    resources: Map<Seq<char>, ResourceView>,
    request: Seq<char>,
    upgrade: int,
)
    requires
        0 <= upgrade < crate::text::lines(request).len(),
        "Connection: Upgrade"@.is_prefix_of(crate::text::lines(request)[upgrade]),
        forall|j: int|
            0 <= j < crate::text::lines(request).len() ==> !"Sec-WebSocket-Key"@.is_prefix_of(
                #[trigger] crate::text::lines(request)[j],
            ) || !crate::text::lines(request)[j].contains(' '),
    ensures
        serve(vstd::utf8::encode_utf8(request), resources) == ServedView::NoKey,
{
    vstd::utf8::encode_utf8_valid_utf8(request);
    vstd::utf8::encode_utf8_decode_utf8(request);
    crate::http::law_no_key_among(crate::text::lines(request));
}

/// Bytes that are no text are ignored, and no others are.
pub proof fn law_only_text_served(bytes: Seq<u8>, resources: Map<Seq<char>, ResourceView>)
    ensures
        serve(bytes, resources) == ServedView::Ignored <==> !vstd::utf8::valid_utf8(bytes),
{
}

} // verus!
