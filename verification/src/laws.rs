//! What holds of the server whatever happens to it.

use vstd::prelude::*;
use vstd::utf8::{decode_utf8, valid_utf8};
use crate::config::{spec_elapsed, MESSAGE_RATE};
use crate::model::{
    spec_deliver, spec_hears, spec_not_from_ip, spec_other_than, spec_stalled, spec_standing,
    spec_survives, spec_swept, Client, Event, ReadOutcome, ServerView,
};
use crate::config::STRIKE_LIMIT;
use crate::sinner::{
    lemma_limit_plus_one_strikes_ban_once, spec_ban_transitions, spec_strikes, Sinner,
};
use crate::text::spec_sanitize;
use crate::wellformed::{
    lemma_bytes_wf, lemma_connected_wf, lemma_filter_clients, lemma_gone_wf, lemma_strike_ip_wf,
    lemma_tick_wf, lemma_update_remove_unique,
};

verus! {

/// The state after the first `n` of `events`, each with its instant, have
/// happened to `s` in turn.
pub open spec fn spec_after(s: ServerView, events: Seq<(Event, u64)>, n: nat) -> ServerView
    decreases n,
{
    if n == 0 {
        s
    } else {
        let e = events[n - 1];
        spec_after(s, events, (n - 1) as nat).handle(e.0, e.1).next
    }
}

/// The identifier that `event` speaks of, if it speaks of one that exists
/// already.
pub open spec fn spec_about(event: Event, id: u64) -> bool {
    match event {
        Event::Read { id: of, .. } => of == id,
        Event::Disconnected { id: of } => of == id,
        Event::ReadError { id: of } => of == id,
        _ => false,
    }
}

/// Among unique identifiers, a client is found where it stands.
pub proof fn lemma_client_found(s: ServerView, i: int)
    requires
        s.unique_ids(),
        0 <= i < s.clients.len(),
    ensures
        s.has_client(s.clients[i].id),
        s.index_of(s.clients[i].id) == i,
        s.client(s.clients[i].id) == s.clients[i],
{
    let id = s.clients[i].id;
    let j = s.index_of(id);
    assert(0 <= j < s.clients.len() && s.clients[j].id == id);
    if j < i {
        assert(s.clients[j].id != s.clients[i].id);
    } else if i < j {
        assert(s.clients[i].id != s.clients[j].id);
    }
}

/// Every event leaves a well-formed state well-formed.
pub proof fn lemma_handle_wf(s: ServerView, event: Event, now: u64)
    requires
        s.wf(),
    ensures
        s.handle(event, now).next.wf(),
{
    match event {
        Event::Connected { id, ip, port } => lemma_connected_wf(s, id, ip, port, now),
        Event::Read { id, bytes } => lemma_bytes_wf(s, id, bytes@, now),
        Event::Disconnected { id } => lemma_gone_wf(s, id),
        Event::ReadError { id } => lemma_gone_wf(s, id),
        Event::Tick => lemma_tick_wf(s, now),
    }
}

/// Whatever events happen, in whatever order and at whatever instants, a
/// well-formed state stays well-formed.
pub proof fn lemma_after_wf(s: ServerView, events: Seq<(Event, u64)>, n: nat)
    requires
        s.wf(),
        n <= events.len(),
    ensures
        spec_after(s, events, n).wf(),
    decreases n,
{
    if n > 0 {
        lemma_after_wf(s, events, (n - 1) as nat);
        let e = events[n - 1];
        lemma_handle_wf(spec_after(s, events, (n - 1) as nat), e.0, e.1);
    }
}

/// After any sequence of events, no client is connected from an address
/// that is banned, whether the ban has run out or not.
pub proof fn lemma_banned_address_has_no_client(
    s: ServerView,
    events: Seq<(Event, u64)>,
    n: nat,
    ip: u128,
    i: int,
)
    requires
        s.wf(),
        n <= events.len(),
        spec_after(s, events, n).standing(ip) is Banned,
        0 <= i < spec_after(s, events, n).clients.len(),
    ensures
        spec_after(s, events, n).clients[i].ip != ip,
{
    lemma_after_wf(s, events, n);
}

/// A client of `t` whose record also stands in `s` is the same client of
/// `s`.
proof fn lemma_same_client(s: ServerView, t: ServerView, id: u64)
    requires
        s.unique_ids(),
        t.unique_ids(),
        t.has_client(id),
        s.clients.contains(t.client(id)),
    ensures
        s.has_client(id),
        s.client(id) == t.client(id),
{
    let j = t.index_of(id);
    assert(0 <= j < t.clients.len() && t.clients[j].id == id);
    let m = choose|m: int| 0 <= m < s.clients.len() && s.clients[m] == t.client(id);
    lemma_client_found(s, m);
}

/// A strike changes no record of a client that stays.
proof fn lemma_strike_ip_keeps_records(s: ServerView, ip: u128, now: u64, id: u64)
    requires
        s.wf(),
        s.strike_ip(ip, now).next.has_client(id),
    ensures
        s.has_client(id),
        s.strike_ip(ip, now).next.client(id) == s.client(id),
{
    let t = s.strike_ip(ip, now).next;
    lemma_strike_ip_wf(s, ip, now);
    lemma_filter_clients(s.clients, spec_not_from_ip(ip));
    let j = t.index_of(id);
    assert(0 <= j < t.clients.len() && t.clients[j].id == id);
    assert(s.clients.contains(t.clients[j]));
    lemma_same_client(s, t, id);
}

/// A message is delivered only to clients that are connected and
/// authenticated when it arrives, and never to its sender.
pub proof fn lemma_deliveries_reach_authenticated(s: ServerView, event: Event, now: u64, k: int)
    requires
        s.wf(),
        0 <= k < s.handle(event, now).actions.len(),
        s.handle(event, now).actions[k] is Deliver,
    ensures
        event is Read,
        s.has_client(s.handle(event, now).actions[k]->Deliver_to),
        s.client(s.handle(event, now).actions[k]->Deliver_to).authed,
        s.handle(event, now).actions[k]->Deliver_to != event->Read_id,
{
    match event {
        Event::Read { id, bytes } => {
            let heard = s.clients.filter(spec_hears(id));
            lemma_filter_clients(s.clients, spec_hears(id));
            if s.handle(event, now).actions == heard.map_values(spec_deliver()) {
                let r = heard[k];
                assert(spec_hears(id)(r));
                assert(s.clients.contains(r));
                let m = choose|m: int| 0 <= m < s.clients.len() && s.clients[m] == r;
                lemma_client_found(s, m);
            }
        },
        _ => {},
    }
}

/// Through any sequence of events, no message is ever delivered to a client
/// that is not authenticated.
pub proof fn lemma_no_delivery_to_unauthenticated(
    s: ServerView,
    events: Seq<(Event, u64)>,
    n: nat,
    k: int,
)
    requires
        s.wf(),
        n < events.len(),
        0 <= k < spec_after(s, events, n).handle(events[n as int].0, events[n as int].1).actions.len(),
        spec_after(s, events, n).handle(events[n as int].0, events[n as int].1).actions[k] is Deliver,
    ensures
        ({
            let before = spec_after(s, events, n);
            let to = before.handle(events[n as int].0, events[n as int].1).actions[k]->Deliver_to;
            before.has_client(to) && before.client(to).authed
        }),
{
    lemma_after_wf(s, events, n);
    lemma_deliveries_reach_authenticated(
        spec_after(s, events, n),
        events[n as int].0,
        events[n as int].1,
        k,
    );
}

/// No event moves the instant of a client's last message backwards. (An
/// accepted connection that takes the client's identifier makes a new
/// client of it.)
pub proof fn lemma_last_message_never_goes_back(s: ServerView, event: Event, now: u64, id: u64)
    requires
        s.wf(),
        s.has_client(id),
        s.handle(event, now).next.has_client(id),
        !(event is Connected && event->Connected_id == id),
    ensures
        s.handle(event, now).next.client(id).last_message >= s.client(id).last_message,
{
    let t = s.handle(event, now).next;
    lemma_handle_wf(s, event, now);
    let j = t.index_of(id);
    assert(0 <= j < t.clients.len() && t.clients[j].id == id);
    match event {
        Event::Connected { id: new, ip, port } => {
            lemma_filter_clients(s.clients, spec_other_than(new));
            if t != s {
                assert(j < t.clients.len() - 1);
                assert(t.clients[j] == s.clients.filter(spec_other_than(new))[j]);
                assert(s.clients.contains(t.clients[j]));
            }
            lemma_same_client(s, t, id);
        },
        Event::Read { id: from, bytes } => {
            lemma_bytes_keeps_or_advances(s, from, bytes@, now, id);
        },
        Event::Disconnected { id: of } => {
            if s.has_client(of) {
                let i = s.index_of(of);
                lemma_update_remove_unique(s.clients, i, s.clients[i]);
                assert(s.clients.contains(t.clients[j]));
            }
            lemma_same_client(s, t, id);
        },
        Event::ReadError { id: of } => {
            if s.has_client(of) {
                let i = s.index_of(of);
                lemma_update_remove_unique(s.clients, i, s.clients[i]);
                assert(s.clients.contains(t.clients[j]));
            }
            lemma_same_client(s, t, id);
        },
        Event::Tick => {
            lemma_filter_clients(s.clients, spec_survives(t.sinners, now));
            assert(s.clients.contains(t.clients[j]));
            lemma_same_client(s, t, id);
        },
    }
}

/// Bytes of client `from` leave the record of client `id` as it is, or,
/// where they are accepted as a message of `id`, move its last message
/// forward to `now`.
proof fn lemma_bytes_keeps_or_advances(s: ServerView, from: u64, data: Seq<u8>, now: u64, id: u64)
    requires
        s.wf(),
        s.has_client(id),
        s.bytes(from, data, now).next.has_client(id),
    ensures
        s.bytes(from, data, now).next.client(id).last_message >= s.client(id).last_message,
{
    let t = s.bytes(from, data, now).next;
    lemma_bytes_wf(s, from, data, now);
    let j = t.index_of(id);
    assert(0 <= j < t.clients.len() && t.clients[j].id == id);
    if s.has_client(from) {
        let i = s.index_of(from);
        let c = s.clients[i];
        assert(0 <= i < s.clients.len() && c.id == from);
        lemma_client_found(s, i);
        let payload = spec_sanitize(data);
        if spec_elapsed(now as int, c.last_message as int) < MESSAGE_RATE {
            lemma_strike_ip_keeps_records(s, c.ip, now, id);
        } else if !valid_utf8(payload) {
        } else {
            let forgiven = s.sinners.insert(c.ip, Sinner::Striked(0));
            let heard = Client { last_message: now as i128, ..c };
            if c.authed || decode_utf8(payload) == s.token {
                lemma_client_found(t, j);
                if j == i {
                    assert(id == from);
                } else {
                    assert(t.clients[j] == s.clients[j]);
                    lemma_client_found(s, j);
                }
            } else {
                let rest = ServerView {
                    clients: s.clients.remove(i),
                    sinners: forgiven,
                    token: s.token,
                };
                lemma_update_remove_unique(s.clients, i, c);
                assert(rest.wf()) by {
                    assert forall|k: int| 0 <= k < rest.clients.len() implies !(rest.standing(
                        #[trigger] rest.clients[k].ip,
                    ) is Banned) by {
                        let d = rest.clients[k];
                        assert(s.clients.contains(d));
                        let m = choose|m: int| 0 <= m < s.clients.len() && s.clients[m] == d;
                        assert(!(s.standing(s.clients[m].ip) is Banned));
                    }
                }
                lemma_strike_ip_keeps_records(rest, c.ip, now, id);
                let r = rest.index_of(id);
                assert(0 <= r < rest.clients.len() && rest.clients[r].id == id);
                assert(s.clients.contains(rest.clients[r]));
                lemma_same_client(s, rest, id);
            }
        }
    }
}

/// Once a client is gone, what is said of it later changes nothing and
/// asks for nothing: its bytes, its disconnection and its read errors find no
/// client.
pub proof fn lemma_events_after_disconnect_are_noops(
    s: ServerView,
    id: u64,
    event: Event,
    now: u64,
)
    requires
        s.wf(),
        spec_about(event, id),
    ensures
        !s.gone(id).next.has_client(id),
        s.gone(id).next.handle(event, now) == s.gone(id).next.stay(),
{
    if s.has_client(id) {
        let i = s.index_of(id);
        lemma_update_remove_unique(s.clients, i, s.clients[i]);
    }
}

/// Once a client is gone, a later read on its connection changes nothing
/// and asks for nothing, however it ended.
pub proof fn lemma_reads_after_disconnect_are_noops(
    s: ServerView,
    id: u64,
    outcome: ReadOutcome,
    now: u64,
)
    requires
        s.wf(),
    ensures
        s.gone(id).next.read(id, outcome, now) == s.gone(id).next.stay(),
{
    if s.has_client(id) {
        let i = s.index_of(id);
        lemma_update_remove_unique(s.clients, i, s.clients[i]);
    }
}

/// The state after client `id` has sent the first `n` of `messages`, each
/// at its instant, and nothing else has happened.
pub open spec fn spec_talk(s: ServerView, id: u64, messages: Seq<(Seq<u8>, u64)>, n: nat)
    -> ServerView
    decreases n,
{
    if n == 0 {
        s
    } else {
        let m = messages[n - 1];
        spec_talk(s, id, messages, (n - 1) as nat).bytes(id, m.0, m.1).next
    }
}

/// Messages that are text once sanitized, that begin with the token unless
/// the client is authenticated already, and that come no faster than the
/// message rate allows.
pub open spec fn spec_legitimate(s: ServerView, id: u64, messages: Seq<(Seq<u8>, u64)>) -> bool {
    &&& s.has_client(id)
    &&& messages.len() > 0
    &&& forall|i: int|
        0 <= i < messages.len() ==> valid_utf8(spec_sanitize((#[trigger] messages[i]).0))
    &&& s.client(id).authed || decode_utf8(spec_sanitize(messages[0].0)) == s.token
    &&& messages[0].1 - s.client(id).last_message >= MESSAGE_RATE
    &&& forall|i: int|
        0 < i < messages.len() ==> (#[trigger] messages[i]).1 - messages[i - 1].1 >= MESSAGE_RATE
}

/// A client that sends the token and after it no more than one message per
/// message rate is never struck and never removed: after each of its
/// messages it is connected and authenticated, its address has no strikes,
/// and no client has come or gone.
pub proof fn lemma_legitimate_client_keeps_its_standing(
    s: ServerView,
    id: u64,
    messages: Seq<(Seq<u8>, u64)>,
    n: nat,
)
    requires
        s.wf(),
        spec_legitimate(s, id, messages),
        1 <= n <= messages.len(),
    ensures
        ({
            let t = spec_talk(s, id, messages, n);
            &&& t.wf()
            &&& t.has_client(id)
            &&& t.client(id).authed
            &&& t.client(id).last_message == messages[n - 1].1
            &&& t.client(id).ip == s.client(id).ip
            &&& t.standing(t.client(id).ip) == Sinner::Striked(0)
            &&& t.clients.len() == s.clients.len()
        }),
    decreases n,
{
    let before = spec_talk(s, id, messages, (n - 1) as nat);
    if n > 1 {
        lemma_legitimate_client_keeps_its_standing(s, id, messages, (n - 1) as nat);
        assert(messages[n - 1].1 - messages[n - 2].1 >= MESSAGE_RATE);
    }
    let m = messages[n - 1];
    assert(valid_utf8(spec_sanitize(m.0)));
    lemma_bytes_wf(before, id, m.0, m.1);
    let i = before.index_of(id);
    assert(0 <= i < before.clients.len() && before.clients[i].id == id);
    let t = before.bytes(id, m.0, m.1).next;
    assert(t.clients[i].id == id);
    lemma_client_found(t, i);
}

/// The clients from `ip` that have stayed unauthenticated for too long at
/// `now`.
pub open spec fn spec_stalled_from(ip: u128, now: u64) -> spec_fn(Client) -> bool {
    |c: Client| spec_stalled(c, now) && c.ip == ip
}

/// A sweep strikes an address once for each of its stalled clients, and
/// leaves every other address as it is.
pub proof fn lemma_sweep_strikes_once_for_each_stalled_client(
    sinners: Map<u128, Sinner>,
    clients: Seq<Client>,
    now: u64,
    ip: u128,
)
    ensures
        spec_standing(spec_swept(sinners, clients, now), ip) == spec_strikes(
            spec_standing(sinners, ip),
            Seq::new(clients.filter(spec_stalled_from(ip, now)).len(), |i: int| now),
        ),
        spec_swept(sinners, clients, now).contains_key(ip) <==> sinners.contains_key(ip)
            || clients.filter(spec_stalled_from(ip, now)).len() > 0,
    decreases clients.len(),
{
    reveal(Seq::filter);
    let hits = spec_stalled_from(ip, now);
    if clients.len() == 0 {
        assert(Seq::new(0, |i: int| now) =~= Seq::<u64>::empty());
    } else {
        let front = clients.drop_last();
        let c = clients.last();
        lemma_sweep_strikes_once_for_each_stalled_client(sinners, front, now, ip);
        let n = front.filter(hits).len();
        if hits(c) {
            assert(clients.filter(hits).len() == n + 1);
            let times = Seq::new((n + 1) as nat, |i: int| now);
            assert(times.drop_last() =~= Seq::new(n, |i: int| now));
            assert(times.last() == now);
        }
    }
}

/// The state after `ip` was struck once at each of `times` in turn, and
/// nothing else has happened.
pub open spec fn spec_struck(s: ServerView, ip: u128, times: Seq<u64>) -> ServerView
    decreases times.len(),
{
    if times.len() == 0 {
        s
    } else {
        spec_struck(s, ip, times.drop_last()).strike_ip(ip, times.last()).next
    }
}

/// Strikes against an address do to its standing what they do to a sinner.
pub proof fn lemma_struck_standing(s: ServerView, ip: u128, times: Seq<u64>)
    requires
        s.wf(),
    ensures
        spec_struck(s, ip, times).wf(),
        spec_struck(s, ip, times).standing(ip) == spec_strikes(s.standing(ip), times),
    decreases times.len(),
{
    if times.len() > 0 {
        lemma_struck_standing(s, ip, times.drop_last());
        lemma_strike_ip_wf(spec_struck(s, ip, times.drop_last()), ip, times.last());
    }
}

/// One strike more than the limit, with no forgiveness between them, bans
/// an address that was not banned: exactly one of the strikes is the one that
/// bans, and no client of the address is left.
pub proof fn lemma_limit_plus_one_strikes_ban_address_once(
    s: ServerView,
    ip: u128,
    times: Seq<u64>,
)
    requires
        s.wf(),
        !(s.standing(ip) is Banned),
        times.len() == STRIKE_LIMIT + 1,
    ensures
        spec_struck(s, ip, times).standing(ip) is Banned,
        spec_ban_transitions(s.standing(ip), times) == 1,
        forall|i: int|
            0 <= i < spec_struck(s, ip, times).clients.len() ==> (#[trigger] spec_struck(
                s,
                ip,
                times,
            ).clients[i]).ip != ip,
{
    lemma_struck_standing(s, ip, times);
    lemma_limit_plus_one_strikes_ban_once(s.standing(ip), times);
}

} // verus!
