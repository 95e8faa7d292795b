//! The server: the single owner of the clients and of the standings of their
//! addresses.

use std::collections::HashMap;
use vstd::prelude::*;
use crate::config::{spec_elapsed, BAN_LIMIT, MESSAGE_RATE, SLOWLORIS_LIMIT};
use crate::model::{
    spec_deliver, spec_from_ip, spec_hears, spec_kick_banned, spec_not_from_ip, spec_other_than,
    spec_stalled, spec_survives, spec_sweep_action, spec_swept, spec_swept_out, Action, Client,
    Event, Notice, ReadOutcome, ServerView,
};
use crate::sinner::Sinner;
use crate::text::{sanitize, utf8_text};
use crate::wellformed::{
    lemma_bytes_wf, lemma_connected_wf, lemma_filter_other_than, lemma_gone_wf,
    lemma_strike_ip_wf, lemma_tick_wf,
};

verus! {

broadcast use vstd::std_specs::hash::group_hash_axioms;

/// What the server answers to bytes: the line to broadcast, empty where
/// nothing is broadcast, and the actions in the order to perform them.
#[derive(Clone, Debug, PartialEq, Eq)]
pub struct Reaction {
    pub line: Vec<u8>,
    pub actions: Vec<Action>,
}

/// The time from `earlier` to `now`, or zero where the clock went backwards.
pub fn elapsed(now: u64, earlier: u64) -> (span: u64)
    ensures
        span == spec_elapsed(now as int, earlier as int),
{
    if now >= earlier {
        now - earlier
    } else {
        0
    }
}

/// Whether `c` has stayed unauthenticated for too long at `now`.
pub fn stalled(c: &Client, now: u64) -> (late: bool)
    ensures
        late == spec_stalled(*c, now),
{
    !c.authed && elapsed(now, c.connected_at) >= SLOWLORIS_LIMIT
}

/// The server. It holds the clients in the order in which they were
/// registered, the standing of each address that has one, and the token.
pub struct Server {
    clients: Vec<Client>,
    sinners: HashMap<u128, Sinner>,
    token: String,
}

impl View for Server {
    type V = ServerView;

    closed spec fn view(&self) -> ServerView {
        ServerView { clients: self.clients@, sinners: self.sinners@, token: self.token@ }
    }
}

impl Server {
    /// No identifier occurs twice, no strike count exceeds the limit, and no
    /// client is connected from a banned address.
    pub open spec fn wf(&self) -> bool {
        self@.wf()
    }

    /// A server without clients or standings that admits by `token`.
    pub fn from_token(token: String) -> (server: Server)
        ensures
            server.wf(),
            server@.clients == Seq::<Client>::empty(),
            server@.sinners == Map::<u128, Sinner>::empty(),
            server@.token == token@,
    {
        Server { clients: Vec::new(), sinners: HashMap::new(), token }
    }

    /// Where client `id` stands among the clients.
    fn position(&self, id: u64) -> (at: Option<usize>)
        requires
            self.wf(),
        ensures
            at is Some <==> self@.has_client(id),
            at is Some ==> at->0 == self@.index_of(id) && at->0 < self.clients@.len(),
    {
        let mut i: usize = 0;
        while i < self.clients.len()
            invariant
                self.wf(),
                i <= self.clients@.len(),
                forall|j: int| 0 <= j < i ==> (#[trigger] self.clients@[j]).id != id,
            decreases self.clients@.len() - i,
        {
            if self.clients[i].id == id {
                proof {
                    assert(self@.clients[i as int].id == id);
                    let j = self@.index_of(id);
                    assert(0 <= j < self@.clients.len() && self@.clients[j].id == id);
                }
                return Some(i);
            }
            i += 1;
        }
        None
    }

    /// The standing of `ip`: that of its record, or no strikes.
    fn standing(&self, ip: u128) -> (s: Sinner)
        ensures
            s == self@.standing(ip),
    {
        match self.sinners.get(&ip) {
            Some(s) => *s,
            None => Sinner::new(),
        }
    }

    /// Strikes `ip` at `now`. Where that bans the address, or it was banned
    /// already, every client of it is told so and removed.
    pub fn strike_ip(&mut self, ip: u128, now: u64) -> (actions: Vec<Action>)
        ensures
            final(self)@ == old(self)@.strike_ip(ip, now).next,
            actions@ == old(self)@.strike_ip(ip, now).actions,
            old(self).wf() ==> final(self).wf(),
    {
        let mut sinner = self.standing(ip);
        let banned = sinner.strike(now);
        self.sinners.insert(ip, sinner);
        let mut actions: Vec<Action> = Vec::new();
        if banned {
            let mut kept: Vec<Client> = Vec::new();
            let mut i: usize = 0;
            proof {
                reveal(Seq::filter);
                assert(self.clients@.take(0) =~= Seq::<Client>::empty());
                assert(Seq::<Client>::empty().map_values(spec_kick_banned()) =~= Seq::<
                    Action,
                >::empty());
            }
            while i < self.clients.len()
                invariant
                    i <= self.clients@.len(),
                    kept@ == self.clients@.take(i as int).filter(spec_not_from_ip(ip)),
                    actions@ == self.clients@.take(i as int).filter(spec_from_ip(ip)).map_values(
                        spec_kick_banned(),
                    ),
                decreases self.clients@.len() - i,
            {
                let c = self.clients[i];
                proof {
                    let seen = self.clients@.take(i as int);
                    assert(self.clients@.take(i + 1) =~= seen.push(c));
                    Seq::lemma_filter_push(seen, c, spec_not_from_ip(ip));
                    Seq::lemma_filter_push(seen, c, spec_from_ip(ip));
                    assert(seen.filter(spec_from_ip(ip)).push(c).map_values(spec_kick_banned())
                        =~= seen.filter(spec_from_ip(ip)).map_values(spec_kick_banned()).push(
                        spec_kick_banned()(c),
                    ));
                }
                if c.ip == ip {
                    actions.push(Action::Kick { id: c.id, notice: Notice::BannedSinner });
                } else {
                    kept.push(c);
                }
                i += 1;
            }
            proof {
                assert(self.clients@.take(self.clients@.len() as int) =~= self.clients@);
            }
            self.clients = kept;
        }
        proof {
            if old(self).wf() {
                lemma_strike_ip_wf(old(self)@, ip, now);
            }
        }
        actions
    }

    /// A connection from `ip` was accepted at `now` and called `id`.
    ///
    /// Where the address is banned and the ban has not run out, the
    /// connection is turned away with the time that is left. Otherwise a ban
    /// that has run out is forgiven and the client is registered,
    /// unauthenticated, in the place of any client of that name.
    pub fn client_connected(&mut self, id: u64, ip: u128, port: u16, now: u64) -> (actions: Vec<
        Action,
    >)
        requires
            old(self).wf(),
        ensures
            final(self).wf(),
            final(self)@ == old(self)@.connected(id, ip, port, now).next,
            actions@ == old(self)@.connected(id, ip, port, now).actions,
    {
        proof {
            lemma_connected_wf(self@, id, ip, port, now);
            lemma_filter_other_than(self@.clients, id);
        }
        let mut actions: Vec<Action> = Vec::new();
        match self.standing(ip) {
            Sinner::Banned(since) => {
                let span = elapsed(now, since);
                if span < BAN_LIMIT {
                    actions.push(
                        Action::Kick {
                            id,
                            notice: Notice::StillBanned { remaining: BAN_LIMIT - span },
                        },
                    );
                    return actions;
                }
                self.sinners.insert(ip, Sinner::Striked(0));
            },
            Sinner::Striked(_) => {},
        }
        match self.position(id) {
            Some(i) => {
                self.clients.remove(i);
            },
            None => {},
        }
        self.clients.push(
            Client {
                id,
                ip,
                port,
                last_message: now as i128 - 2 * (MESSAGE_RATE as i128),
                connected_at: now,
                authed: false,
            },
        );
        actions
    }

    /// Client `id` is gone, by its own will or by a failed read. It is
    /// removed; its address gets no strike.
    fn client_gone(&mut self, id: u64) -> (actions: Vec<Action>)
        requires
            old(self).wf(),
        ensures
            final(self).wf(),
            final(self)@ == old(self)@.gone(id).next,
            actions@ == old(self)@.gone(id).actions,
    {
        proof {
            lemma_gone_wf(self@, id);
        }
        let mut actions: Vec<Action> = Vec::new();
        match self.position(id) {
            Some(i) => {
                self.clients.remove(i);
                actions.push(Action::Forget { id });
            },
            None => {},
        }
        actions
    }

    /// The peer of client `id` closed the connection.
    pub fn on_disconnect(&mut self, id: u64) -> (actions: Vec<Action>)
        requires
            old(self).wf(),
        ensures
            final(self).wf(),
            final(self)@ == old(self)@.gone(id).next,
            actions@ == old(self)@.gone(id).actions,
    {
        self.client_gone(id)
    }

    /// Reading from client `id` failed.
    pub fn on_read_error(&mut self, id: u64) -> (actions: Vec<Action>)
        requires
            old(self).wf(),
        ensures
            final(self).wf(),
            final(self)@ == old(self)@.gone(id).next,
            actions@ == old(self)@.gone(id).actions,
    {
        self.client_gone(id)
    }

    /// The clients that a message of client `id` is delivered to.
    fn recipients(&self, id: u64) -> (actions: Vec<Action>)
        ensures
            actions@ == self@.clients.filter(spec_hears(id)).map_values(spec_deliver()),
    {
        let mut actions: Vec<Action> = Vec::new();
        let mut i: usize = 0;
        proof {
            reveal(Seq::filter);
            assert(self.clients@.take(0) =~= Seq::<Client>::empty());
            assert(Seq::<Client>::empty().map_values(spec_deliver()) =~= Seq::<Action>::empty());
        }
        while i < self.clients.len()
            invariant
                i <= self.clients@.len(),
                actions@ == self.clients@.take(i as int).filter(spec_hears(id)).map_values(
                    spec_deliver(),
                ),
            decreases self.clients@.len() - i,
        {
            let c = self.clients[i];
            proof {
                let seen = self.clients@.take(i as int);
                assert(self.clients@.take(i + 1) =~= seen.push(c));
                Seq::lemma_filter_push(seen, c, spec_hears(id));
                assert(seen.filter(spec_hears(id)).push(c).map_values(spec_deliver())
                    =~= seen.filter(spec_hears(id)).map_values(spec_deliver()).push(
                    spec_deliver()(c),
                ));
            }
            if c.authed && c.id != id {
                actions.push(Action::Deliver { to: c.id });
            }
            i += 1;
        }
        proof {
            assert(self.clients@.take(self.clients@.len() as int) =~= self.clients@);
        }
        actions
    }

    /// Client `id` sent `bytes` at `now`.
    ///
    /// The bytes of an unknown client are dropped. Control characters are
    /// taken out first. A message that comes too soon after the last one
    /// costs the address a strike and changes nothing else. One that is not
    /// text is dropped. Any other forgives the address and counts as the
    /// client's last message; from an authenticated client it goes to every
    /// other authenticated client with a line feed behind it, from a pending
    /// one it is held against the token: the right one authenticates the
    /// client, a wrong one has it removed and its address struck.
    pub fn on_bytes(&mut self, id: u64, bytes: &[u8], now: u64) -> (out: Reaction)
        requires
            old(self).wf(),
        ensures
            final(self).wf(),
            final(self)@ == old(self)@.bytes(id, bytes@, now).next,
            out.line@ == old(self)@.bytes(id, bytes@, now).line,
            out.actions@ == old(self)@.bytes(id, bytes@, now).actions,
    {
        proof {
            lemma_bytes_wf(self@, id, bytes@, now);
        }
        let i = match self.position(id) {
            Some(i) => i,
            None => {
                return Reaction { line: Vec::new(), actions: Vec::new() };
            },
        };
        let c = self.clients[i];
        let mut payload = sanitize(bytes);
        if now as i128 - (MESSAGE_RATE as i128) < c.last_message {
            let actions = self.strike_ip(c.ip, now);
            return Reaction { line: Vec::new(), actions };
        }
        let is_token = match utf8_text(payload.as_slice()) {
            Some(text) => text.to_owned() == self.token,
            None => {
                return Reaction { line: Vec::new(), actions: Vec::new() };
            },
        };
        self.sinners.insert(c.ip, Sinner::Striked(0));
        if c.authed {
            let actions = self.recipients(id);
            self.clients.remove(i);
            self.clients.insert(i, Client { last_message: now as i128, ..c });
            assert(self.clients@ =~= old(self)@.clients.update(
                i as int,
                Client { last_message: now as i128, ..c },
            ));
            payload.push(10u8);
            Reaction { line: payload, actions }
        } else if is_token {
            self.clients.remove(i);
            self.clients.insert(i, Client { last_message: now as i128, authed: true, ..c });
            assert(self.clients@ =~= old(self)@.clients.update(
                i as int,
                Client { last_message: now as i128, authed: true, ..c },
            ));
            let mut actions: Vec<Action> = Vec::new();
            actions.push(Action::Notify { to: id, notice: Notice::Welcome });
            Reaction { line: Vec::new(), actions }
        } else {
            self.clients.remove(i);
            let mut actions: Vec<Action> = Vec::new();
            actions.push(Action::Kick { id, notice: Notice::InvalidToken });
            let mut struck = self.strike_ip(c.ip, now);
            actions.append(&mut struck);
            Reaction { line: Vec::new(), actions }
        }
    }

    /// The clock reached `now`.
    ///
    /// Each client that has stayed unauthenticated for the slow-connect limit
    /// or longer costs its address one strike and is shut down. After those
    /// strikes every other client of an address that is banned is told so and
    /// removed as well.
    pub fn on_tick(&mut self, now: u64) -> (actions: Vec<Action>)
        requires
            old(self).wf(),
        ensures
            final(self).wf(),
            final(self)@ == old(self)@.tick(now).next,
            actions@ == old(self)@.tick(now).actions,
    {
        proof {
            lemma_tick_wf(self@, now);
        }
        let mut i: usize = 0;
        proof {
            assert(self.clients@.take(0) =~= Seq::<Client>::empty());
        }
        while i < self.clients.len()
            invariant
                i <= self.clients@.len(),
                self.clients@ == old(self)@.clients,
                self.token@ == old(self)@.token,
                self.sinners@ == spec_swept(old(self)@.sinners, self.clients@.take(i as int), now),
            decreases self.clients@.len() - i,
        {
            let c = self.clients[i];
            proof {
                assert(self.clients@.take(i + 1).drop_last() =~= self.clients@.take(i as int));
            }
            if stalled(&c, now) {
                let mut sinner = self.standing(c.ip);
                sinner.strike(now);
                self.sinners.insert(c.ip, sinner);
            }
            i += 1;
        }
        proof {
            assert(self.clients@.take(self.clients@.len() as int) =~= self.clients@);
        }
        let ghost sinners = self.sinners@;
        let mut actions: Vec<Action> = Vec::new();
        let mut kept: Vec<Client> = Vec::new();
        let mut k: usize = 0;
        proof {
            reveal(Seq::filter);
            assert(self.clients@.take(0) =~= Seq::<Client>::empty());
            assert(Seq::<Client>::empty().map_values(spec_sweep_action(now)) =~= Seq::<
                Action,
            >::empty());
        }
        while k < self.clients.len()
            invariant
                k <= self.clients@.len(),
                self.sinners@ == sinners,
                kept@ == self.clients@.take(k as int).filter(spec_survives(sinners, now)),
                actions@ == self.clients@.take(k as int).filter(
                    spec_swept_out(sinners, now),
                ).map_values(spec_sweep_action(now)),
            decreases self.clients@.len() - k,
        {
            let c = self.clients[k];
            proof {
                let seen = self.clients@.take(k as int);
                assert(self.clients@.take(k + 1) =~= seen.push(c));
                Seq::lemma_filter_push(seen, c, spec_survives(sinners, now));
                Seq::lemma_filter_push(seen, c, spec_swept_out(sinners, now));
                assert(seen.filter(spec_swept_out(sinners, now)).push(c).map_values(
                    spec_sweep_action(now),
                ) =~= seen.filter(spec_swept_out(sinners, now)).map_values(
                    spec_sweep_action(now),
                ).push(spec_sweep_action(now)(c)));
            }
            if stalled(&c, now) {
                actions.push(Action::Shutdown { id: c.id });
            } else {
                match self.standing(c.ip) {
                    Sinner::Banned(_) => {
                        actions.push(Action::Kick { id: c.id, notice: Notice::BannedSinner });
                    },
                    Sinner::Striked(_) => {
                        kept.push(c);
                    },
                }
            }
            k += 1;
        }
        proof {
            assert(self.clients@.take(self.clients@.len() as int) =~= self.clients@);
        }
        self.clients = kept;
        actions
    }

    /// An attempt to read from client `id` at `now` ended in `outcome`.
    ///
    /// No bytes at all mean that the peer closed the connection, and so the
    /// client is removed, as it is after a failed read. A read that would
    /// block changes nothing. Bytes are handled as `on_bytes` does.
    pub fn client_read(&mut self, id: u64, outcome: ReadOutcome, now: u64) -> (out: Reaction)
        requires
            old(self).wf(),
        ensures
            final(self).wf(),
            final(self)@ == old(self)@.read(id, outcome, now).next,
            out.line@ == old(self)@.read(id, outcome, now).line,
            out.actions@ == old(self)@.read(id, outcome, now).actions,
    {
        match outcome {
            ReadOutcome::Bytes(data) => {
                if data.len() == 0 {
                    let actions = self.on_disconnect(id);
                    Reaction { line: Vec::new(), actions }
                } else {
                    self.on_bytes(id, data.as_slice(), now)
                }
            },
            ReadOutcome::WouldBlock => Reaction { line: Vec::new(), actions: Vec::new() },
            ReadOutcome::Failed => {
                let actions = self.on_read_error(id);
                Reaction { line: Vec::new(), actions }
            },
        }
    }

    /// A connection became readable at `now`: handles the read, and then
    /// lets the clock tick.
    pub fn update(&mut self, id: u64, outcome: ReadOutcome, now: u64) -> (out: Reaction)
        requires
            old(self).wf(),
        ensures
            final(self).wf(),
            final(self)@ == old(self)@.update(id, outcome, now).next,
            out.line@ == old(self)@.update(id, outcome, now).line,
            out.actions@ == old(self)@.update(id, outcome, now).actions,
    {
        let mut out = self.client_read(id, outcome, now);
        let mut swept = self.on_tick(now);
        out.actions.append(&mut swept);
        proof {
            assert(out.line@ + Seq::<u8>::empty() =~= out.line@);
        }
        out
    }

    /// Handles one event that happened at `now`.
    pub fn handle(&mut self, event: Event, now: u64) -> (out: Reaction)
        requires
            old(self).wf(),
        ensures
            final(self).wf(),
            final(self)@ == old(self)@.handle(event, now).next,
            out.line@ == old(self)@.handle(event, now).line,
            out.actions@ == old(self)@.handle(event, now).actions,
    {
        match event {
            Event::Connected { id, ip, port } => {
                let actions = self.client_connected(id, ip, port, now);
                Reaction { line: Vec::new(), actions }
            },
            Event::Read { id, bytes } => self.on_bytes(id, bytes.as_slice(), now),
            Event::Disconnected { id } => {
                let actions = self.on_disconnect(id);
                Reaction { line: Vec::new(), actions }
            },
            Event::ReadError { id } => {
                let actions = self.on_read_error(id);
                Reaction { line: Vec::new(), actions }
            },
            Event::Tick => {
                let actions = self.on_tick(now);
                Reaction { line: Vec::new(), actions }
            },
        }
    }

    /// The record of client `id`, if it is connected.
    pub fn client(&self, id: u64) -> (found: Option<Client>)
        requires
            self.wf(),
        ensures
            found is Some <==> self@.has_client(id),
            found is Some ==> found->0 == self@.client(id),
    {
        match self.position(id) {
            Some(i) => Some(self.clients[i]),
            None => None,
        }
    }

    /// The clients, oldest registration first.
    pub fn clients(&self) -> (all: Vec<Client>)
        ensures
            all@ == self@.clients,
    {
        self.clients.clone()
    }

    /// How many clients are connected.
    pub fn client_count(&self) -> (n: usize)
        ensures
            n == self@.clients.len(),
    {
        self.clients.len()
    }

    /// The record of `ip`, if it has one.
    pub fn sinner(&self, ip: u128) -> (found: Option<Sinner>)
        ensures
            found is Some <==> self@.sinners.contains_key(ip),
            found is Some ==> found->0 == self@.sinners[ip],
    {
        match self.sinners.get(&ip) {
            Some(s) => Some(*s),
            None => None,
        }
    }

    /// The secret that authenticates a client.
    pub fn token(&self) -> (token: &String)
        ensures
            token@ == self@.token,
    {
        &self.token
    }
}

} // verus!
