//! The server as a mathematical state machine: its state, the events it
//! reacts to, and for each event the state that follows and what is to be
//! done on the wire.

use vstd::prelude::*;
use vstd::utf8::{decode_utf8, valid_utf8};
use crate::config::{spec_elapsed, BAN_LIMIT, MESSAGE_RATE, SLOWLORIS_LIMIT};
use crate::sinner::{spec_strike, Sinner};
use crate::text::spec_sanitize;

verus! {

/// One connection, authenticated or still pending.
#[derive(Clone, Copy, Debug, PartialEq, Eq, Structural)]
pub struct Client {
    /// The connection's identifier, unique among the connected clients.
    pub id: u64,
    /// The remote address, as a key: equal for equal addresses only.
    pub ip: u128,
    /// The remote port.
    pub port: u16,
    /// Instant of the last message that was accepted from this client.
    pub last_message: i128,
    /// Instant at which the connection was accepted.
    pub connected_at: u64,
    /// Whether the client has sent the token.
    pub authed: bool,
}

/// A fixed line that the server sends to a client.
#[derive(Clone, Copy, Debug, PartialEq, Eq, Structural)]
pub enum Notice {
    /// The token was right.
    Welcome,
    /// The token was wrong.
    InvalidToken,
    /// The client's address has just been banned.
    BannedSinner,
    /// The address is still banned, for `remaining` nanoseconds.
    StillBanned { remaining: u64 },
}

/// One thing for the caller to do with a socket.
#[derive(Clone, Copy, Debug, PartialEq, Eq, Structural)]
pub enum Action {
    /// Write the notice to the connection.
    Notify { to: u64, notice: Notice },
    /// Write the broadcast line of this event to the connection.
    Deliver { to: u64 },
    /// Write the notice, then shut the connection down and forget it.
    Kick { id: u64, notice: Notice },
    /// Shut the connection down and forget it.
    Shutdown { id: u64 },
    /// Forget the connection: its peer is gone.
    Forget { id: u64 },
}

/// How an attempt to read from a connection ended.
#[derive(Clone, Debug, PartialEq, Eq)]
pub enum ReadOutcome {
    /// The bytes that were read. None at all means that the peer closed the
    /// connection.
    Bytes(Vec<u8>),
    /// Nothing to read for now.
    WouldBlock,
    /// The read failed.
    Failed,
}

/// What can happen to the server.
#[derive(Clone, Debug, PartialEq, Eq)]
pub enum Event {
    /// A connection was accepted.
    Connected { id: u64, ip: u128, port: u16 },
    /// Bytes arrived on a connection.
    Read { id: u64, bytes: Vec<u8> },
    /// The peer closed a connection.
    Disconnected { id: u64 },
    /// Reading from a connection failed.
    ReadError { id: u64 },
    /// Time has passed.
    Tick,
}

/// The state of the server.
pub struct ServerView {
    /// The connected clients, oldest registration first.
    pub clients: Seq<Client>,
    /// The standing of each address that has one.
    pub sinners: Map<u128, Sinner>,
    /// The secret that authenticates a client.
    pub token: Seq<char>,
}

/// What follows an event: the next state, the line to broadcast (empty where
/// nothing is broadcast) and the actions, in the order to perform them.
pub struct Step {
    pub next: ServerView,
    pub line: Seq<u8>,
    pub actions: Seq<Action>,
}

/// The standing of `ip` in `sinners`; an address without a record has no
/// strikes.
pub open spec fn spec_standing(sinners: Map<u128, Sinner>, ip: u128) -> Sinner {
    if sinners.contains_key(ip) {
        sinners[ip]
    } else {
        Sinner::Striked(0)
    }
}

/// No identifier occurs twice among `clients`.
pub open spec fn spec_unique_ids(clients: Seq<Client>) -> bool {
    forall|i: int, j: int|
        #![trigger clients[i], clients[j]]
        0 <= i < j < clients.len() ==> clients[i].id != clients[j].id
}

pub open spec fn spec_from_ip(ip: u128) -> spec_fn(Client) -> bool {
    |c: Client| c.ip == ip
}

pub open spec fn spec_not_from_ip(ip: u128) -> spec_fn(Client) -> bool {
    |c: Client| c.ip != ip
}

pub open spec fn spec_other_than(id: u64) -> spec_fn(Client) -> bool {
    |c: Client| c.id != id
}

/// The clients that a message of client `id` goes to: the authenticated ones
/// but the sender.
pub open spec fn spec_hears(id: u64) -> spec_fn(Client) -> bool {
    |c: Client| c.authed && c.id != id
}

pub open spec fn spec_deliver() -> spec_fn(Client) -> Action {
    |c: Client| Action::Deliver { to: c.id }
}

pub open spec fn spec_kick_banned() -> spec_fn(Client) -> Action {
    |c: Client| Action::Kick { id: c.id, notice: Notice::BannedSinner }
}

/// A client that has stayed unauthenticated for too long at `now`.
pub open spec fn spec_stalled(c: Client, now: u64) -> bool {
    !c.authed && spec_elapsed(now as int, c.connected_at as int) >= SLOWLORIS_LIMIT
}

/// `sinners` after one strike at `now` for each stalled client of `clients`.
pub open spec fn spec_swept(sinners: Map<u128, Sinner>, clients: Seq<Client>, now: u64) -> Map<
    u128,
    Sinner,
>
    decreases clients.len(),
{
    if clients.len() == 0 {
        sinners
    } else {
        let before = spec_swept(sinners, clients.drop_last(), now);
        let c = clients.last();
        if spec_stalled(c, now) {
            before.insert(c.ip, spec_strike(spec_standing(before, c.ip), now))
        } else {
            before
        }
    }
}

/// The clients that a sweep at `now` leaves, given the standings after it.
pub open spec fn spec_survives(sinners: Map<u128, Sinner>, now: u64) -> spec_fn(Client) -> bool {
    |c: Client| !spec_stalled(c, now) && !(spec_standing(sinners, c.ip) is Banned)
}

pub open spec fn spec_swept_out(sinners: Map<u128, Sinner>, now: u64) -> spec_fn(Client) -> bool {
    |c: Client| spec_stalled(c, now) || spec_standing(sinners, c.ip) is Banned
}

/// How a sweep at `now` gets rid of a client: a stalled one without a word,
/// another one of a banned address with the ban notice.
pub open spec fn spec_sweep_action(now: u64) -> spec_fn(Client) -> Action {
    |c: Client|
        if spec_stalled(c, now) {
            Action::Shutdown { id: c.id }
        } else {
            Action::Kick { id: c.id, notice: Notice::BannedSinner }
        }
}

impl ServerView {
    pub open spec fn has_client(self, id: u64) -> bool {
        exists|i: int| 0 <= i < self.clients.len() && #[trigger] self.clients[i].id == id
    }

    /// Where client `id` stands among the clients.
    pub open spec fn index_of(self, id: u64) -> int {
        choose|i: int| 0 <= i < self.clients.len() && #[trigger] self.clients[i].id == id
    }

    pub open spec fn client(self, id: u64) -> Client {
        self.clients[self.index_of(id)]
    }

    pub open spec fn standing(self, ip: u128) -> Sinner {
        spec_standing(self.sinners, ip)
    }

    /// No identifier occurs twice.
    pub open spec fn unique_ids(self) -> bool {
        spec_unique_ids(self.clients)
    }

    /// No client is connected from a banned address.
    pub open spec fn no_banned_client(self) -> bool {
        forall|i: int|
            0 <= i < self.clients.len() ==> !(self.standing(
                #[trigger] self.clients[i].ip,
            ) is Banned)
    }

    pub open spec fn wf(self) -> bool {
        &&& self.unique_ids()
        &&& self.no_banned_client()
        &&& forall|ip: u128| self.sinners.contains_key(ip) ==> (#[trigger] self.sinners[ip]).wf()
    }

    /// Nothing happens.
    pub open spec fn stay(self) -> Step {
        Step { next: self, line: Seq::empty(), actions: Seq::empty() }
    }

    /// A strike at `now` against `ip`. Where the address is banned
    /// afterwards, each of its clients is told so and removed.
    pub open spec fn strike_ip(self, ip: u128, now: u64) -> Step {
        let s = spec_strike(self.standing(ip), now);
        let sinners = self.sinners.insert(ip, s);
        if s is Banned {
            Step {
                next: ServerView {
                    clients: self.clients.filter(spec_not_from_ip(ip)),
                    sinners,
                    token: self.token,
                },
                line: Seq::empty(),
                actions: self.clients.filter(spec_from_ip(ip)).map_values(spec_kick_banned()),
            }
        } else {
            Step {
                next: ServerView { clients: self.clients, sinners, token: self.token },
                line: Seq::empty(),
                actions: Seq::empty(),
            }
        }
    }

    /// A connection from `ip` was accepted at `now` and called `id`.
    pub open spec fn connected(self, id: u64, ip: u128, port: u16, now: u64) -> Step {
        let s = self.standing(ip);
        if s is Banned && spec_elapsed(now as int, s->Banned_0 as int) < BAN_LIMIT {
            let remaining = (BAN_LIMIT - spec_elapsed(now as int, s->Banned_0 as int)) as u64;
            Step {
                next: self,
                line: Seq::empty(),
                actions: seq![Action::Kick { id, notice: Notice::StillBanned { remaining } }],
            }
        } else {
            let c = Client {
                id,
                ip,
                port,
                last_message: (now - 2 * MESSAGE_RATE) as i128,
                connected_at: now,
                authed: false,
            };
            Step {
                next: ServerView {
                    clients: self.clients.filter(spec_other_than(id)).push(c),
                    sinners: if s is Banned {
                        self.sinners.insert(ip, Sinner::Striked(0))
                    } else {
                        self.sinners
                    },
                    token: self.token,
                },
                line: Seq::empty(),
                actions: Seq::empty(),
            }
        }
    }

    /// Client `id` sent `data` at `now`.
    pub open spec fn bytes(self, id: u64, data: Seq<u8>, now: u64) -> Step {
        if !self.has_client(id) {
            self.stay()
        } else {
            let i = self.index_of(id);
            let c = self.clients[i];
            let payload = spec_sanitize(data);
            if spec_elapsed(now as int, c.last_message as int) < MESSAGE_RATE {
                self.strike_ip(c.ip, now)
            } else if !valid_utf8(payload) {
                self.stay()
            } else {
                let forgiven = self.sinners.insert(c.ip, Sinner::Striked(0));
                let heard = Client { last_message: now as i128, ..c };
                if c.authed {
                    Step {
                        next: ServerView {
                            clients: self.clients.update(i, heard),
                            sinners: forgiven,
                            token: self.token,
                        },
                        line: payload.push(10u8),
                        actions: self.clients.filter(spec_hears(id)).map_values(spec_deliver()),
                    }
                } else if decode_utf8(payload) == self.token {
                    Step {
                        next: ServerView {
                            clients: self.clients.update(i, Client { authed: true, ..heard }),
                            sinners: forgiven,
                            token: self.token,
                        },
                        line: Seq::empty(),
                        actions: seq![Action::Notify { to: id, notice: Notice::Welcome }],
                    }
                } else {
                    let rest = ServerView {
                        clients: self.clients.remove(i),
                        sinners: forgiven,
                        token: self.token,
                    };
                    let struck = rest.strike_ip(c.ip, now);
                    Step {
                        next: struck.next,
                        line: Seq::empty(),
                        actions: seq![Action::Kick { id, notice: Notice::InvalidToken }]
                            + struck.actions,
                    }
                }
            }
        }
    }

    /// Client `id` is gone: its peer closed the connection, or reading from
    /// it failed.
    pub open spec fn gone(self, id: u64) -> Step {
        if !self.has_client(id) {
            self.stay()
        } else {
            Step {
                next: ServerView {
                    clients: self.clients.remove(self.index_of(id)),
                    sinners: self.sinners,
                    token: self.token,
                },
                line: Seq::empty(),
                actions: seq![Action::Forget { id }],
            }
        }
    }

    /// An attempt to read from client `id` at `now` ended in `outcome`.
    pub open spec fn read(self, id: u64, outcome: ReadOutcome, now: u64) -> Step {
        match outcome {
            ReadOutcome::Bytes(data) => if data@.len() == 0 {
                self.gone(id)
            } else {
                self.bytes(id, data@, now)
            },
            ReadOutcome::WouldBlock => self.stay(),
            ReadOutcome::Failed => self.gone(id),
        }
    }

    /// The clock reached `now`: each stalled client costs its address a
    /// strike and is removed, and so is every client of an address that is
    /// banned afterwards.
    pub open spec fn tick(self, now: u64) -> Step {
        let sinners = spec_swept(self.sinners, self.clients, now);
        Step {
            next: ServerView {
                clients: self.clients.filter(spec_survives(sinners, now)),
                sinners,
                token: self.token,
            },
            line: Seq::empty(),
            actions: self.clients.filter(spec_swept_out(sinners, now)).map_values(
                spec_sweep_action(now),
            ),
        }
    }
}

impl Step {
    /// This step with `after` behind it, which starts where this one ends.
    pub open spec fn followed_by(self, after: Step) -> Step {
        Step {
            next: after.next,
            line: self.line + after.line,
            actions: self.actions + after.actions,
        }
    }
}

impl ServerView {
    /// A connection became readable at `now`: the read, and a tick after it.
    pub open spec fn update(self, id: u64, outcome: ReadOutcome, now: u64) -> Step {
        let read = self.read(id, outcome, now);
        read.followed_by(read.next.tick(now))
    }

    /// `event` happened at `now`.
    pub open spec fn handle(self, event: Event, now: u64) -> Step {
        match event {
            Event::Connected { id, ip, port } => self.connected(id, ip, port, now),
            Event::Read { id, bytes } => self.bytes(id, bytes@, now),
            Event::Disconnected { id } => self.gone(id),
            Event::ReadError { id } => self.gone(id),
            Event::Tick => self.tick(now),
        }
    }
}

} // verus!
