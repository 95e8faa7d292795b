//! Every event leaves a well-formed state well-formed: identifiers stay
//! unique, strike counts stay within the limit, and no client is ever
//! connected from a banned address.

use vstd::prelude::*;
use crate::model::{
    spec_not_from_ip, spec_other_than, spec_stalled, spec_standing, spec_survives, spec_swept,
    spec_unique_ids,
    Client, ServerView,
};
use crate::sinner::{spec_strike, Sinner};

verus! {

/// What a filter keeps are the members that satisfy the predicate, and it
/// keeps identifiers unique.
pub proof fn lemma_filter_clients(s: Seq<Client>, pred: spec_fn(Client) -> bool)
    ensures
        forall|k: int|
            0 <= k < s.filter(pred).len() ==> pred(#[trigger] s.filter(pred)[k]) && s.contains(
                s.filter(pred)[k],
            ),
        forall|k: int| 0 <= k < s.len() && pred(s[k]) ==> s.filter(pred).contains(#[trigger] s[k]),
        spec_unique_ids(s) ==> spec_unique_ids(s.filter(pred)),
    decreases s.len(),
{
    reveal(Seq::filter);
    if s.len() > 0 {
        let front = s.drop_last();
        let kept = front.filter(pred);
        lemma_filter_clients(front, pred);
        assert forall|k: int| 0 <= k < s.filter(pred).len() implies pred(
            #[trigger] s.filter(pred)[k],
        ) && s.contains(s.filter(pred)[k]) by {
            if k < kept.len() {
                assert(front.contains(kept[k]));
                let m = choose|m: int| 0 <= m < front.len() && front[m] == kept[k];
                assert(s[m] == kept[k]);
            } else {
                assert(s[s.len() - 1] == s.filter(pred)[k]);
            }
        }
        assert forall|k: int| 0 <= k < s.len() && pred(s[k]) implies s.filter(pred).contains(
            #[trigger] s[k],
        ) by {
            if k < front.len() {
                assert(front[k] == s[k]);
                assert(kept.contains(front[k]));
                let m = choose|m: int| 0 <= m < kept.len() && kept[m] == front[k];
                assert(s.filter(pred)[m] == s[k]);
            } else {
                assert(s.filter(pred)[s.filter(pred).len() - 1] == s[k]);
            }
        }
        if spec_unique_ids(s) {
            assert(spec_unique_ids(front)) by {
                assert forall|i: int, j: int|
                    #![trigger front[i], front[j]]
                    0 <= i < j < front.len() implies front[i].id != front[j].id by {
                    assert(s[i].id != s[j].id);
                }
            }
            if pred(s.last()) {
                let f = s.filter(pred);
                assert forall|i: int, j: int|
                    #![trigger f[i], f[j]]
                    0 <= i < j < f.len() implies f[i].id != f[j].id by {
                    if j < kept.len() {
                        assert(kept[i].id != kept[j].id);
                    } else {
                        assert(front.contains(kept[i]));
                        let m = choose|m: int| 0 <= m < front.len() && front[m] == kept[i];
                        assert(s[m].id != s[s.len() - 1].id);
                    }
                }
            }
        }
    }
}

/// A strike keeps the state well-formed.
pub proof fn lemma_strike_ip_wf(s: ServerView, ip: u128, now: u64)
    requires
        s.wf(),
    ensures
        s.strike_ip(ip, now).next.wf(),
{
    let next = s.strike_ip(ip, now).next;
    lemma_filter_clients(s.clients, spec_not_from_ip(ip));
    assert forall|i: int| 0 <= i < next.clients.len() implies !(next.standing(
        #[trigger] next.clients[i].ip,
    ) is Banned) by {
        let c = next.clients[i];
        assert(s.clients.contains(c));
        let m = choose|m: int| 0 <= m < s.clients.len() && s.clients[m] == c;
        assert(!(s.standing(s.clients[m].ip) is Banned));
    }
}

/// Replacing or removing one client keeps identifiers unique.
pub proof fn lemma_update_remove_unique(s: Seq<Client>, i: int, c: Client)
    requires
        spec_unique_ids(s),
        0 <= i < s.len(),
        c.id == s[i].id,
    ensures
        spec_unique_ids(s.update(i, c)),
        spec_unique_ids(s.remove(i)),
        forall|k: int|
            0 <= k < s.remove(i).len() ==> s.contains(#[trigger] s.remove(i)[k]) && s.remove(
                i,
            )[k].id != c.id,
{
    let u = s.update(i, c);
    assert forall|a: int, b: int| #![trigger u[a], u[b]] 0 <= a < b < u.len() implies u[a].id
        != u[b].id by {
        assert(s[a].id != s[b].id);
    }
    let r = s.remove(i);
    assert forall|k: int| 0 <= k < r.len() implies s.contains(#[trigger] r[k]) && r[k].id
        != c.id by {
        if k < i {
            assert(r[k] == s[k]);
            assert(s[k].id != s[i].id);
        } else {
            assert(r[k] == s[k + 1]);
            assert(s[i].id != s[k + 1].id);
        }
    }
    assert forall|a: int, b: int| #![trigger r[a], r[b]] 0 <= a < b < r.len() implies r[a].id
        != r[b].id by {
        let a2 = if a < i { a } else { a + 1 };
        let b2 = if b < i { b } else { b + 1 };
        assert(r[a] == s[a2] && r[b] == s[b2]);
        assert(s[a2].id != s[b2].id);
    }
}

/// Without client `id`, a sequence of unique identifiers is the same with
/// its entry removed.
pub proof fn lemma_filter_other_than(s: Seq<Client>, id: u64)
    requires
        spec_unique_ids(s),
    ensures
        forall|i: int|
            0 <= i < s.len() && (#[trigger] s[i]).id == id ==> s.filter(spec_other_than(id))
                == s.remove(i),
        (forall|i: int| 0 <= i < s.len() ==> (#[trigger] s[i]).id != id) ==> s.filter(
            spec_other_than(id),
        ) == s,
    decreases s.len(),
{
    reveal(Seq::filter);
    if s.len() > 0 {
        let front = s.drop_last();
        assert forall|a: int, b: int|
            #![trigger front[a], front[b]]
            0 <= a < b < front.len() implies front[a].id != front[b].id by {
            assert(s[a].id != s[b].id);
        }
        lemma_filter_other_than(front, id);
        let last = s.len() - 1;
        if s[last].id == id {
            assert forall|i: int| 0 <= i < front.len() implies (#[trigger] front[i]).id != id by {
                assert(s[i].id != s[last].id);
            }
            assert(s.remove(last) =~= front);
            assert forall|i: int| 0 <= i < s.len() && (#[trigger] s[i]).id == id implies i
                == last by {
                if i < last {
                    assert(s[i].id != s[last].id);
                }
            }
        } else {
            assert forall|i: int| 0 <= i < s.len() && (#[trigger] s[i]).id == id implies s.filter(
                spec_other_than(id),
            ) == s.remove(i) by {
                assert(front[i].id == id);
                assert(front.remove(i).push(s[last]) =~= s.remove(i));
            }
            if forall|i: int| 0 <= i < s.len() ==> (#[trigger] s[i]).id != id {
                assert forall|i: int| 0 <= i < front.len() implies (#[trigger] front[i]).id
                    != id by {
                    assert(s[i].id != id);
                }
                assert(front.push(s[last]) =~= s);
            }
        }
    } else {
        assert(s.filter(spec_other_than(id)) =~= s);
    }
}

/// An accepted connection keeps the state well-formed.
pub proof fn lemma_connected_wf(s: ServerView, id: u64, ip: u128, port: u16, now: u64)
    requires
        s.wf(),
    ensures
        s.connected(id, ip, port, now).next.wf(),
{
    let next = s.connected(id, ip, port, now).next;
    let others = s.clients.filter(spec_other_than(id));
    lemma_filter_clients(s.clients, spec_other_than(id));
    if next != s {
        let last = next.clients.len() - 1;
        assert(next.clients == others.push(next.clients[last]));
        assert forall|a: int, b: int|
            #![trigger next.clients[a], next.clients[b]]
            0 <= a < b < next.clients.len() implies next.clients[a].id != next.clients[b].id by {
            if b < last {
                assert(others[a].id != others[b].id);
            } else {
                assert(spec_other_than(id)(others[a]));
            }
        }
        assert forall|i: int| 0 <= i < next.clients.len() implies !(next.standing(
            #[trigger] next.clients[i].ip,
        ) is Banned) by {
            if i < last {
                let c = others[i];
                assert(s.clients.contains(c));
                let m = choose|m: int| 0 <= m < s.clients.len() && s.clients[m] == c;
                assert(!(s.standing(s.clients[m].ip) is Banned));
            }
        }
    }
}

/// The loss of a client keeps the state well-formed.
pub proof fn lemma_gone_wf(s: ServerView, id: u64)
    requires
        s.wf(),
    ensures
        s.gone(id).next.wf(),
{
    if s.has_client(id) {
        let i = s.index_of(id);
        let next = s.gone(id).next;
        lemma_update_remove_unique(s.clients, i, s.clients[i]);
        assert forall|k: int| 0 <= k < next.clients.len() implies !(next.standing(
            #[trigger] next.clients[k].ip,
        ) is Banned) by {
            let c = next.clients[k];
            assert(s.clients.contains(c));
            let m = choose|m: int| 0 <= m < s.clients.len() && s.clients[m] == c;
            assert(!(s.standing(s.clients[m].ip) is Banned));
        }
    }
}

/// Received bytes keep the state well-formed.
pub proof fn lemma_bytes_wf(s: ServerView, id: u64, data: Seq<u8>, now: u64)
    requires
        s.wf(),
    ensures
        s.bytes(id, data, now).next.wf(),
{
    if s.has_client(id) {
        let i = s.index_of(id);
        let c = s.clients[i];
        let next = s.bytes(id, data, now).next;
        lemma_strike_ip_wf(s, c.ip, now);
        let forgiven = s.sinners.insert(c.ip, Sinner::Striked(0));
        let heard = Client { last_message: now as i128, ..c };
        lemma_update_remove_unique(s.clients, i, heard);
        lemma_update_remove_unique(s.clients, i, Client { authed: true, ..heard });
        let rest = ServerView { clients: s.clients.remove(i), sinners: forgiven, token: s.token };
        assert(rest.wf()) by {
            assert forall|k: int| 0 <= k < rest.clients.len() implies !(rest.standing(
                #[trigger] rest.clients[k].ip,
            ) is Banned) by {
                let d = rest.clients[k];
                assert(s.clients.contains(d));
                let m = choose|m: int| 0 <= m < s.clients.len() && s.clients[m] == d;
                assert(!(s.standing(s.clients[m].ip) is Banned));
            }
        }
        lemma_strike_ip_wf(rest, c.ip, now);
        assert forall|k: int| 0 <= k < next.clients.len() && next.clients.len()
            == s.clients.len() && next.sinners == forgiven implies !(next.standing(
            #[trigger] next.clients[k].ip,
        ) is Banned) by {
            assert(next.clients[k].ip == s.clients[k].ip);
            assert(!(s.standing(s.clients[k].ip) is Banned));
        }
    }
}

/// A sweep keeps every strike count within the limit.
pub proof fn lemma_swept_wf(sinners: Map<u128, Sinner>, clients: Seq<Client>, now: u64)
    requires
        forall|ip: u128| sinners.contains_key(ip) ==> (#[trigger] sinners[ip]).wf(),
    ensures
        forall|ip: u128|
            spec_swept(sinners, clients, now).contains_key(ip) ==> (#[trigger] spec_swept(
                sinners,
                clients,
                now,
            )[ip]).wf(),
    decreases clients.len(),
{
    if clients.len() > 0 {
        lemma_swept_wf(sinners, clients.drop_last(), now);
        let before = spec_swept(sinners, clients.drop_last(), now);
        let after = spec_swept(sinners, clients, now);
        let c = clients.last();
        assert forall|ip: u128| after.contains_key(ip) implies (#[trigger] after[ip]).wf() by {
            if spec_stalled(c, now) && ip == c.ip {
                assert(spec_standing(before, c.ip).wf());
                assert(after[ip] == spec_strike(spec_standing(before, c.ip), now));
            } else {
                assert(before.contains_key(ip) && after[ip] == before[ip]);
            }
        }
    }
}

/// A tick of the clock keeps the state well-formed.
pub proof fn lemma_tick_wf(s: ServerView, now: u64)
    requires
        s.wf(),
    ensures
        s.tick(now).next.wf(),
{
    let next = s.tick(now).next;
    lemma_swept_wf(s.sinners, s.clients, now);
    lemma_filter_clients(s.clients, spec_survives(next.sinners, now));
}

} // verus!
