//! The session manager: the roster of connected clients and what the server
//! answers to each event. The server relays joins and moves between
//! clients; it keeps no board and judges no move. It lets a client move only
//! for the team that the client has joined.
use crate::game::Team;
use crate::net::{
    chomp, decoded, lemma_round_trip, strip_line_feed, MessageView, ProtocolError,
    ProtocolMessage,
};
use crate::text::{split, split_str, str_eq};
use vstd::prelude::*;

verus! {

/// A connected client: the identity that the server gave it, and the team
/// that it has joined, if any.
#[derive(Clone, Copy, Debug, PartialEq, Eq, Structural)]
pub struct ClientConnection {
    pub team: Option<Team>,
    pub id: u32,
}

/// What happens to the server.
pub enum ServerEvent {
    /// A connection was accepted.
    ClientConnected,
    /// The client with this identity is gone.
    ClientDisconnected(u32),
    /// The client with this identity sent a line.
    ClientMessage(u32, String),
}

/// An event as a mathematical object.
pub enum ServerEventView {
    ClientConnected,
    ClientDisconnected(u32),
    ClientMessage(u32, Seq<char>),
}

impl View for ServerEvent {
    type V = ServerEventView;

    open spec fn view(&self) -> ServerEventView {
        match self {
            ServerEvent::ClientConnected => ServerEventView::ClientConnected,
            ServerEvent::ClientDisconnected(id) => ServerEventView::ClientDisconnected(*id),
            ServerEvent::ClientMessage(id, line) => ServerEventView::ClientMessage(*id, line@),
        }
    }
}

/// A line for the server to write to one client.
#[derive(Debug)]
pub struct Delivery {
    /// The identity of the client to write to.
    pub to: u32,
    /// The text to write, line feed included.
    pub line: String,
}

impl View for Delivery {
    type V = (u32, Seq<char>);

    open spec fn view(&self) -> (u32, Seq<char>) {
        (self.to, self.line@)
    }
}

/// The deliveries that a list holds.
pub open spec fn deliveries(list: Seq<Delivery>) -> Seq<(u32, Seq<char>)> {
    Seq::new(list.len(), |i: int| list[i]@)
}

/// What the server does in answer to an event.
pub struct ServerReply {
    /// The identity given to a client that has just connected.
    pub assigned: Option<u32>,
    /// The lines to write, in order.
    pub deliveries: Vec<Delivery>,
}

/// A reply as a mathematical object.
pub struct ServerReplyView {
    pub assigned: Option<u32>,
    pub deliveries: Seq<(u32, Seq<char>)>,
}

impl View for ServerReply {
    type V = ServerReplyView;

    open spec fn view(&self) -> ServerReplyView {
        ServerReplyView { assigned: self.assigned, deliveries: deliveries(self.deliveries@) }
    }
}

/// The session manager.
pub struct Server {
    /// The connected clients, in the order in which they connected.
    pub clients: Vec<ClientConnection>,
    /// The identity that the next client will get.
    pub id_seq: u32,
}

/// The session manager as a mathematical object.
pub struct ServerView {
    pub clients: Seq<ClientConnection>,
    pub id_seq: u32,
}

impl View for Server {
    type V = ServerView;

    open spec fn view(&self) -> ServerView {
        ServerView { clients: self.clients@, id_seq: self.id_seq }
    }
}

/// The clients other than the one with identity `id`.
pub open spec fn other_than(id: u32) -> spec_fn(ClientConnection) -> bool {
    |c: ClientConnection| c.id != id
}

/// The place in the roster of the first client with identity `id`; the
/// length of the roster where there is none.
pub open spec fn position_of(clients: Seq<ClientConnection>, id: u32) -> int
    decreases clients.len(),
{
    if clients.len() == 0 || clients[0].id == id {
        0
    } else {
        1 + position_of(clients.skip(1), id)
    }
}

/// `position_of` lies within the roster, no client before it has identity
/// `id`, and the client at it has, unless no client has.
pub proof fn lemma_position_of(clients: Seq<ClientConnection>, id: u32)
    ensures
        0 <= position_of(clients, id) <= clients.len(),
        forall|j: int| 0 <= j < position_of(clients, id) ==> clients[j].id != id,
        position_of(clients, id) < clients.len() ==> clients[position_of(clients, id)].id == id,
    decreases clients.len(),
{
    if clients.len() == 0 || clients[0].id == id {
    } else {
        let rest = clients.skip(1);
        lemma_position_of(rest, id);
        assert forall|j: int| 0 <= j < position_of(clients, id) implies clients[j].id != id by {
            if j > 0 {
                assert(rest[j - 1] == clients[j]);
            }
        }
        if position_of(clients, id) < clients.len() {
            assert(rest[position_of(rest, id)] == clients[position_of(clients, id)]);
        }
    }
}

impl ServerView {
    /// A client with identity `id` is connected.
    pub open spec fn has_client(self, id: u32) -> bool {
        exists|i: int| 0 <= i < self.clients.len() && (#[trigger] self.clients[i]).id == id
    }

    /// The team that the client with identity `id` has joined.
    pub open spec fn team_of(self, id: u32) -> Option<Team>
        recommends
            self.has_client(id),
    {
        self.clients[position_of(self.clients, id)].team
    }

    /// No two clients share an identity, and every identity in use is below
    /// the next one to be given.
    pub open spec fn wf(self) -> bool {
        &&& forall|i: int, j: int|
            0 <= i < j < self.clients.len() ==> (#[trigger] self.clients[i]).id != (
            #[trigger] self.clients[j]).id
        &&& forall|i: int|
            0 <= i < self.clients.len() ==> (#[trigger] self.clients[i]).id < self.id_seq
    }

    /// One line to the client with identity `id`; nothing where no such
    /// client is connected.
    pub open spec fn unicast(self, id: u32, message: MessageView) -> Seq<(u32, Seq<char>)> {
        if self.has_client(id) {
            seq![(id, message.encoded())]
        } else {
            Seq::empty()
        }
    }

    /// One line to every connected client, in roster order.
    pub open spec fn broadcast(self, message: MessageView) -> Seq<(u32, Seq<char>)> {
        Seq::new(self.clients.len(), |i: int| (self.clients[i].id, message.encoded()))
    }

    /// The roster after a client connects: it gets the next identity and has
    /// no team. Where the identities are used up nothing changes.
    pub open spec fn after_connect(self) -> ServerView {
        if self.id_seq < u32::MAX {
            ServerView {
                clients: self.clients.push(ClientConnection { team: None, id: self.id_seq }),
                id_seq: (self.id_seq + 1) as u32,
            }
        } else {
            self
        }
    }

    /// The roster after the client with identity `id` is gone.
    pub open spec fn after_disconnect(self, id: u32) -> ServerView {
        ServerView { clients: self.clients.filter(other_than(id)), id_seq: self.id_seq }
    }

    /// The roster after the client with identity `id` has joined `team`.
    pub open spec fn with_team(self, id: u32, team: Team) -> ServerView
        recommends
            self.has_client(id),
    {
        ServerView {
            clients: self.clients.update(
                position_of(self.clients, id),
                ClientConnection { team: Some(team), id },
            ),
            id_seq: self.id_seq,
        }
    }

    /// The roster after the client with identity `id` has sent `text`: a
    /// join that names a player is recorded, and nothing else changes
    /// anything.
    pub open spec fn after_message(self, id: u32, text: Seq<char>) -> ServerView {
        match decoded(text) {
            Ok(MessageView::TeamJoin(team)) => if self.has_client(id) {
                self.with_team(id, team)
            } else {
                self
            },
            _ => self,
        }
    }

    /// What the server writes after the client with identity `id` has sent
    /// `text`.
    ///
    /// - A join that names a player is announced to every client, the sender
    ///   included.
    /// - A move is relayed to every client if the sender has joined the team
    ///   that the move names. Otherwise the sender alone gets an
    ///   `InvalidMove` error.
    /// - Anything else is answered to the sender alone by the error that
    ///   `refusal` gives.
    /// - A line from an identity that is not connected is answered by
    ///   nothing.
    pub open spec fn answer(self, id: u32, text: Seq<char>) -> Seq<(u32, Seq<char>)> {
        if !self.has_client(id) {
            Seq::empty()
        } else {
            match decoded(text) {
                Ok(MessageView::TeamJoin(team)) => self.with_team(id, team).broadcast(
                    MessageView::TeamJoin(team),
                ),
                Ok(MessageView::Move(team, from, to)) => match self.team_of(id) {
                    Some(joined) => if joined == team {
                        self.broadcast(MessageView::Move(team, from, to))
                    } else {
                        self.unicast(
                            id,
                            MessageView::Error(
                                ProtocolError::InvalidMove,
                                "You are not on team "@ + team.display_name(),
                            ),
                        )
                    },
                    None => self.unicast(
                        id,
                        MessageView::Error(
                            ProtocolError::InvalidMove,
                            "You have not joined a team"@,
                        ),
                    ),
                },
                _ => self.unicast(id, refusal(text)),
            }
        }
    }

    /// The roster and the reply after an event.
    pub open spec fn step(self, event: ServerEventView) -> (ServerView, ServerReplyView) {
        match event {
            ServerEventView::ClientConnected => (
                self.after_connect(),
                ServerReplyView {
                    assigned: if self.id_seq < u32::MAX {
                        Some(self.id_seq)
                    } else {
                        None
                    },
                    deliveries: Seq::empty(),
                },
            ),
            ServerEventView::ClientDisconnected(id) => (
                self.after_disconnect(id),
                ServerReplyView { assigned: None, deliveries: Seq::empty() },
            ),
            ServerEventView::ClientMessage(id, text) => (
                self.after_message(id, text),
                ServerReplyView { assigned: None, deliveries: self.answer(id, text) },
            ),
        }
    }
}

/// The error that answers a line which is neither a join nor a move that
/// can be read. The command is the line's first piece.
///
/// - `join` without a team: `MissingArg`; with a team token that names no
///   player: `InvalidTeam`.
/// - `move` with too few pieces: `MissingArg`; with a piece that cannot be
///   read: `InvalidMove`.
/// - Any other command: `UnknownCommand`, with the command in the text.
pub open spec fn refusal(text: Seq<char>) -> MessageView {
    let command = split(chomp(text), ' ')[0];
    if command == "join"@ {
        match decoded(text) {
            Err(ProtocolError::MissingArg) => MessageView::Error(
                ProtocolError::MissingArg,
                "JOIN requires an argument <team>"@,
            ),
            _ => MessageView::Error(ProtocolError::InvalidTeam, "Unrecognised team"@),
        }
    } else if command == "move"@ {
        match decoded(text) {
            Err(ProtocolError::MissingArg) => MessageView::Error(
                ProtocolError::MissingArg,
                "MOVE requires two arguments <from> <to>"@,
            ),
            _ => MessageView::Error(ProtocolError::InvalidMove, "Invalid move"@),
        }
    } else {
        MessageView::Error(ProtocolError::UnknownCommand, "unknown command "@ + command)
    }
}

/// Builds the error that answers a line which is neither a join nor a move
/// that can be read.
pub fn refuse(text: &str) -> (r: ProtocolMessage)
    ensures
        r@ == refusal(text@),
{
    let line = strip_line_feed(text);
    let tokens = split_str(line, ' ');
    assert(tokens[0]@ == split(chomp(text@), ' ')[0]);
    let command = tokens[0].as_str();
    if str_eq(command, "join") {
        match ProtocolMessage::decode(text) {
            Err(ProtocolError::MissingArg) => ProtocolMessage::Error(
                ProtocolError::MissingArg,
                String::from_str("JOIN requires an argument <team>"),
            ),
            _ => ProtocolMessage::Error(
                ProtocolError::InvalidTeam,
                String::from_str("Unrecognised team"),
            ),
        }
    } else if str_eq(command, "move") {
        match ProtocolMessage::decode(text) {
            Err(ProtocolError::MissingArg) => ProtocolMessage::Error(
                ProtocolError::MissingArg,
                String::from_str("MOVE requires two arguments <from> <to>"),
            ),
            _ => ProtocolMessage::Error(
                ProtocolError::InvalidMove,
                String::from_str("Invalid move"),
            ),
        }
    } else {
        let mut message = String::from_str("unknown command ");
        message.append(command);
        ProtocolMessage::Error(ProtocolError::UnknownCommand, message)
    }
}

impl Server {
    /// A server without clients.
    pub fn new() -> (r: Server)
        ensures
            r@.clients.len() == 0,
            r@.id_seq == 0,
            r@.wf(),
    {
        Server { clients: Vec::new(), id_seq: 0 }
    }

    /// The place in the roster of the first client with identity
    /// `client_id`.
    pub fn find(&self, client_id: u32) -> (r: Option<usize>)
        ensures
            r is Some <==> self@.has_client(client_id),
            r matches Some(i) ==> i == position_of(self@.clients, client_id) && i
                < self.clients.len() && self.clients[i as int].id == client_id,
    {
        let mut i: usize = 0;
        while i < self.clients.len()
            invariant
                i <= self.clients.len(),
                forall|j: int| 0 <= j < i ==> self.clients[j].id != client_id,
            decreases self.clients.len() - i,
        {
            if self.clients[i].id == client_id {
                proof {
                    lemma_position_of(self@.clients, client_id);
                }
                return Some(i);
            }
            i += 1;
        }
        None
    }

    /// Takes a new client into the roster and gives it the next identity.
    /// Returns the identity; `None`, with nothing changed, where the
    /// identities are used up.
    pub fn connect(&mut self) -> (r: Option<u32>)
        ensures
            final(self)@ == old(self)@.after_connect(),
            r == (if old(self).id_seq < u32::MAX {
                Some(old(self).id_seq)
            } else {
                None
            }),
            old(self)@.wf() ==> final(self)@.wf(),
    {
        if self.id_seq == u32::MAX {
            return None;
        }
        let id = self.id_seq;
        self.clients.push(ClientConnection { team: None, id });
        self.id_seq = id + 1;
        Some(id)
    }

    /// Takes the client with identity `client_id` off the roster.
    pub fn disconnect(&mut self, client_id: u32)
        ensures
            final(self)@ == old(self)@.after_disconnect(client_id),
            !final(self)@.has_client(client_id),
            old(self)@.wf() ==> final(self)@.wf(),
    {
        let mut kept: Vec<ClientConnection> = Vec::new();
        let mut i: usize = 0;
        proof {
            reveal(Seq::filter);
            assert(self.clients@.take(0) =~= Seq::<ClientConnection>::empty());
        }
        while i < self.clients.len()
            invariant
                i <= self.clients.len(),
                kept@ == self.clients@.take(i as int).filter(other_than(client_id)),
                forall|k: int| 0 <= k < kept.len() ==> (#[trigger] kept[k]).id != client_id,
                forall|k: int|
                    0 <= k < kept.len() ==> exists|j: int|
                        0 <= j < i && self.clients[j] == #[trigger] kept[k],
                self@.wf() ==> forall|a: int, b: int|
                    0 <= a < b < kept.len() ==> (#[trigger] kept[a]).id != (#[trigger] kept[b]).id,
            decreases self.clients.len() - i,
        {
            let client = self.clients[i];
            proof {
                assert(self.clients@.take(i + 1) =~= self.clients@.take(i as int).push(client));
                self.clients@.take(i as int).lemma_filter_push(client, other_than(client_id));
            }
            if client.id != client_id {
                kept.push(client);
            }
            i += 1;
        }
        proof {
            assert(self.clients@.take(i as int) =~= self.clients@);
        }
        self.clients = kept;
    }

    /// Records that the client with identity `client_id` has joined `team`.
    /// Returns whether such a client is connected; where none is, nothing
    /// changes.
    pub fn set_client_team(&mut self, client_id: u32, team: Team) -> (found: bool)
        ensures
            found == old(self)@.has_client(client_id),
            found ==> final(self)@ == old(self)@.with_team(client_id, team),
            !found ==> final(self)@ == old(self)@,
            old(self)@.wf() ==> final(self)@.wf(),
    {
        match self.find(client_id) {
            Some(client_idx) => {
                let new_client = ClientConnection { team: Some(team), id: client_id };
                self.clients[client_idx] = new_client;
                assert(self@.clients =~= old(self)@.with_team(client_id, team).clients);
                true
            },
            None => false,
        }
    }

    /// The lines that carry `msg` to the client with identity `client_id`,
    /// or to every client where `client_id` is `None`.
    pub fn send(&self, client_id: Option<u32>, msg: &ProtocolMessage) -> (r: Vec<Delivery>)
        ensures
            deliveries(r@) == match client_id {
                Some(id) => self@.unicast(id, msg@),
                None => self@.broadcast(msg@),
            },
    {
        let mut out: Vec<Delivery> = Vec::new();
        match client_id {
            Some(id) => {
                if self.find(id).is_some() {
                    out.push(Delivery { to: id, line: msg.encode() });
                }
                assert(deliveries(out@) =~= self@.unicast(id, msg@));
            },
            None => {
                let line = msg.encode();
                let mut i: usize = 0;
                while i < self.clients.len()
                    invariant
                        i <= self.clients.len(),
                        line@ == msg@.encoded(),
                        out.len() == i,
                        forall|k: int|
                            0 <= k < i ==> (#[trigger] out[k])@ == (
                                self.clients[k].id,
                                msg@.encoded(),
                            ),
                    decreases self.clients.len() - i,
                {
                    out.push(Delivery { to: self.clients[i].id, line: line.clone() });
                    i += 1;
                }
                assert(deliveries(out@) =~= self@.broadcast(msg@));
            },
        }
        out
    }

    /// Answers a line from the client with identity `client_id`: records a
    /// join, and returns the lines to write.
    pub fn handle_message(&mut self, client_id: u32, text: &str) -> (r: Vec<Delivery>)
        ensures
            final(self)@ == old(self)@.after_message(client_id, text@),
            deliveries(r@) == old(self)@.answer(client_id, text@),
            old(self)@.wf() ==> final(self)@.wf(),
    {
        let sender = match self.find(client_id) {
            Some(i) => self.clients[i],
            None => {
                let none: Vec<Delivery> = Vec::new();
                assert(deliveries(none@) =~= Seq::<(u32, Seq<char>)>::empty());
                return none;
            },
        };
        match ProtocolMessage::decode(text) {
            Ok(ProtocolMessage::TeamJoin(team)) => {
                self.set_client_team(client_id, team);
                self.send(None, &ProtocolMessage::TeamJoin(team))
            },
            Ok(ProtocolMessage::Move(team, from, to)) => {
                match sender.team {
                    Some(client_team) => {
                        if client_team == team {
                            self.send(None, &ProtocolMessage::Move(team, from, to))
                        } else {
                            let mut message = String::from_str("You are not on team ");
                            message.append(team.to_string().as_str());
                            self.send(
                                Some(client_id),
                                &ProtocolMessage::Error(ProtocolError::InvalidMove, message),
                            )
                        }
                    },
                    None => self.send(
                        Some(client_id),
                        &ProtocolMessage::Error(
                            ProtocolError::InvalidMove,
                            String::from_str("You have not joined a team"),
                        ),
                    ),
                }
            },
            _ => {
                let message = refuse(text);
                self.send(Some(client_id), &message)
            },
        }
    }

    /// Takes one event and says what to do about it: the one place where
    /// the roster changes.
    pub fn handle_event(&mut self, event: ServerEvent) -> (r: ServerReply)
        ensures
            (final(self)@, r@) == old(self)@.step(event@),
            old(self)@.wf() ==> final(self)@.wf(),
    {
        match event {
            ServerEvent::ClientConnected => {
                let assigned = self.connect();
                let r = ServerReply { assigned, deliveries: Vec::new() };
                assert(r@.deliveries =~= Seq::<(u32, Seq<char>)>::empty());
                r
            },
            ServerEvent::ClientDisconnected(client_id) => {
                self.disconnect(client_id);
                let r = ServerReply { assigned: None, deliveries: Vec::new() };
                assert(r@.deliveries =~= Seq::<(u32, Seq<char>)>::empty());
                r
            },
            ServerEvent::ClientMessage(client_id, line) => {
                let deliveries = self.handle_message(client_id, line.as_str());
                ServerReply { assigned: None, deliveries }
            },
        }
    }
}

/// A move from a client that has joined no team, or another team than the
/// move names, is not relayed: the roster stays as it is, and the one line
/// written goes to the sender and carries an `InvalidMove` error.
pub proof fn lemma_move_needs_team(
    server: ServerView,
    id: u32,
    text: Seq<char>,
    team: Team,
    from: crate::board::BoardSquareCoords,
    to: crate::board::BoardSquareCoords,
)
    requires
        server.has_client(id),
        decoded(text) == Ok::<MessageView, ProtocolError>(MessageView::Move(team, from, to)),
        server.team_of(id) != Some(team),
    ensures
        server.after_message(id, text) == server,
        server.answer(id, text).len() == 1,
        server.answer(id, text)[0].0 == id,
        decoded(server.answer(id, text)[0].1) matches Ok(MessageView::Error(e, _)) && e
            == ProtocolError::InvalidMove,
{
    match server.team_of(id) {
        Some(joined) => {
            lemma_round_trip(
                MessageView::Error(
                    ProtocolError::InvalidMove,
                    "You are not on team "@ + team.display_name(),
                ),
            );
        },
        None => {
            lemma_round_trip(
                MessageView::Error(ProtocolError::InvalidMove, "You have not joined a team"@),
            );
        },
    }
}

/// A move from a client that has joined the team that the move names is
/// relayed as it is to every client, in roster order, and changes nothing in
/// the roster.
pub proof fn lemma_move_of_own_team_is_relayed(
    server: ServerView,
    id: u32,
    text: Seq<char>,
    team: Team,
    from: crate::board::BoardSquareCoords,
    to: crate::board::BoardSquareCoords,
)
    requires
        server.has_client(id),
        decoded(text) == Ok::<MessageView, ProtocolError>(MessageView::Move(team, from, to)),
        server.team_of(id) == Some(team),
    ensures
        server.after_message(id, text) == server,
        server.answer(id, text).len() == server.clients.len(),
        forall|i: int|
            0 <= i < server.clients.len() ==> #[trigger] server.answer(id, text)[i] == (
                server.clients[i].id,
                MessageView::Move(team, from, to).encoded(),
            ),
{
}

/// A join whose team token names no player is not announced: the roster
/// stays as it is, and the one line written goes to the sender and carries
/// an `InvalidTeam` error.
pub proof fn lemma_join_needs_player(server: ServerView, id: u32, text: Seq<char>)
    requires
        server.has_client(id),
        split(chomp(text), ' ')[0] == "join"@,
        split(chomp(text), ' ').len() >= 2,
        Team::from_text(split(chomp(text), ' ')[1]) is None,
    ensures
        server.after_message(id, text) == server,
        server.answer(id, text).len() == 1,
        server.answer(id, text)[0].0 == id,
        decoded(server.answer(id, text)[0].1) matches Ok(MessageView::Error(e, _)) && e
            == ProtocolError::InvalidTeam,
{
    lemma_round_trip(MessageView::Error(ProtocolError::InvalidTeam, "Unrecognised team"@));
}

/// A join that names a player is recorded for the sender and announced to
/// every client, the sender included. Nobody else's team changes, and nobody
/// comes or goes.
pub proof fn lemma_join_is_announced(server: ServerView, id: u32, text: Seq<char>, team: Team)
    requires
        server.has_client(id),
        decoded(text) == Ok::<MessageView, ProtocolError>(MessageView::TeamJoin(team)),
    ensures
        server.after_message(id, text).has_client(id),
        server.after_message(id, text).team_of(id) == Some(team),
        server.after_message(id, text).clients.len() == server.clients.len(),
        forall|i: int|
            0 <= i < server.clients.len() ==> (#[trigger] server.after_message(
                id,
                text,
            ).clients[i]).id == server.clients[i].id,
        forall|i: int|
            0 <= i < server.clients.len() && i != position_of(server.clients, id)
                ==> #[trigger] server.after_message(id, text).clients[i] == server.clients[i],
        server.answer(id, text).len() == server.clients.len(),
        forall|i: int|
            0 <= i < server.clients.len() ==> #[trigger] server.answer(id, text)[i] == (
                server.clients[i].id,
                MessageView::TeamJoin(team).encoded(),
            ),
{
    lemma_position_of(server.clients, id);
    let p = position_of(server.clients, id);
    let after = server.after_message(id, text);
    assert(after.clients[p].id == id);
    lemma_position_of(after.clients, id);
    let q = position_of(after.clients, id);
    if q < p {
        assert(after.clients[q] == server.clients[q]);
    }
}

/// Identities are given in increasing order and never twice: a client that
/// connects gets the next identity, which no connected client has, and the
/// identity after it is the next.
pub proof fn lemma_identities_increase(server: ServerView)
    requires
        server.wf(),
        server.id_seq < u32::MAX,
    ensures
        !server.has_client(server.id_seq),
        server.after_connect().has_client(server.id_seq),
        server.after_connect().team_of(server.id_seq) is None,
        server.after_connect().id_seq == server.id_seq + 1,
        server.after_connect().wf(),
{
    let after = server.after_connect();
    let n = server.clients.len() as int;
    assert(after.clients[n].id == server.id_seq);
    lemma_position_of(after.clients, server.id_seq);
    let q = position_of(after.clients, server.id_seq);
    if q < n {
        assert(after.clients[q] == server.clients[q]);
    }
}

/// A client that is gone is no longer in the roster, and the others stay.
pub proof fn lemma_disconnect_removes(server: ServerView, id: u32, other: u32)
    requires
        other != id,
    ensures
        !server.after_disconnect(id).has_client(id),
        server.after_disconnect(id).has_client(other) == server.has_client(other),
{
    let pred = other_than(id);
    let kept = server.clients.filter(pred);
    if server.has_client(other) {
        let i = choose|i: int|
            0 <= i < server.clients.len() && (#[trigger] server.clients[i]).id == other;
        assert(pred(server.clients[i]));
        server.clients.lemma_filter_contains(pred, i);
        let k = choose|k: int| 0 <= k < kept.len() && kept[k] == server.clients[i];
        assert(kept[k].id == other);
    }
    if server.after_disconnect(id).has_client(other) {
        let k = choose|k: int| 0 <= k < kept.len() && (#[trigger] kept[k]).id == other;
        assert(kept.contains(kept[k]));
        server.clients.lemma_filter_contains_rev(pred, kept[k]);
        let i = choose|i: int| 0 <= i < server.clients.len() && server.clients[i] == kept[k];
        assert(server.clients[i].id == other);
    }
    if server.after_disconnect(id).has_client(id) {
        let k = choose|k: int| 0 <= k < kept.len() && (#[trigger] kept[k]).id == id;
        server.clients.lemma_filter_pred(pred, k);
        assert(pred(kept[k]));
    }
}

} // verus!
