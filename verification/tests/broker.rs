use chat_broker::config::{BAN_LIMIT, MESSAGE_RATE, SLOWLORIS_LIMIT, STRIKE_LIMIT};
use chat_broker::model::{Action, Client, Event, Notice, ReadOutcome};
use chat_broker::server::{elapsed, stalled, Reaction, Server};
use chat_broker::sinner::Sinner;

const TOKEN: &str = "ABCDEF0123456789ABCDEF0123456789";
const MS: u64 = 1_000_000;
const SEC: u64 = 1_000_000_000;
const IP_A: u128 = 0x0a00_0001;
const IP_B: u128 = 0x0a00_0002;
const IP_C: u128 = 0x0a00_0003;

fn server() -> Server {
    Server::from_token(TOKEN.to_string())
}

fn quiet() -> Reaction {
    Reaction { line: vec![], actions: vec![] }
}

/// Connects and authenticates client `id` from `ip` at `now`.
fn join(s: &mut Server, id: u64, ip: u128, now: u64) {
    assert!(s.client_connected(id, ip, 4000, now).is_empty());
    let out = s.on_bytes(id, TOKEN.as_bytes(), now);
    assert_eq!(out.actions, vec![Action::Notify { to: id, notice: Notice::Welcome }]);
    assert!(out.line.is_empty());
}

#[test]
fn limits_have_their_documented_values() {
    assert_eq!(BAN_LIMIT, 600 * SEC);
    assert_eq!(MESSAGE_RATE, SEC);
    assert_eq!(SLOWLORIS_LIMIT, 200 * MS);
    assert_eq!(STRIKE_LIMIT, 10);
    assert_eq!(chat_broker::config::PORT, 6969);
    assert!(!chat_broker::config::SAFE_MODE);
}

#[test]
fn new_server_is_empty() {
    let s = server();
    assert_eq!(s.client_count(), 0);
    assert!(s.clients().is_empty());
    assert_eq!(s.sinner(IP_A), None);
    assert_eq!(s.token(), TOKEN);
}

#[test]
fn connect_registers_pending_client() {
    let mut s = server();
    let now = 5 * SEC;
    assert!(s.client_connected(7, IP_A, 1234, now).is_empty());
    assert_eq!(
        s.client(7),
        Some(Client {
            id: 7,
            ip: IP_A,
            port: 1234,
            last_message: 3 * SEC as i128,
            connected_at: now,
            authed: false,
        })
    );
    assert_eq!(s.sinner(IP_A), None);
}

#[test]
fn connect_at_time_zero_dates_last_message_before_the_clock() {
    let mut s = server();
    s.client_connected(1, IP_A, 1, 0);
    assert_eq!(s.client(1).unwrap().last_message, -2 * SEC as i128);
}

#[test]
fn connect_with_known_id_replaces_the_client() {
    let mut s = server();
    join(&mut s, 1, IP_A, 0);
    s.client_connected(2, IP_B, 1, 0);
    s.client_connected(1, IP_C, 9, SEC);
    assert_eq!(s.client_count(), 2);
    let c = s.client(1).unwrap();
    assert_eq!((c.ip, c.port, c.authed, c.connected_at), (IP_C, 9, false, SEC));
    assert_eq!(s.clients()[0].id, 2);
    assert_eq!(s.clients()[1].id, 1);
}

#[test]
fn happy_broadcast() {
    let mut s = server();
    s.client_connected(1, IP_A, 4000, 0);
    s.client_connected(2, IP_B, 4000, MS);
    s.client_connected(3, IP_C, 4000, 2 * MS);
    for (id, at) in [(1u64, 0u64), (2, MS), (3, 2 * MS)] {
        let out = s.on_bytes(id, TOKEN.as_bytes(), at);
        assert_eq!(out.actions, vec![Action::Notify { to: id, notice: Notice::Welcome }]);
        assert!(out.line.is_empty());
    }
    let out = s.on_bytes(1, b"hello", 2 * SEC);
    assert_eq!(out.line, b"hello\n".to_vec());
    assert_eq!(out.actions, vec![Action::Deliver { to: 2 }, Action::Deliver { to: 3 }]);
    assert_eq!(s.client(1).unwrap().last_message, 2 * SEC as i128);
    assert_eq!(s.sinner(IP_A), Some(Sinner::Striked(0)));
    assert_eq!(s.client_count(), 3);
}

#[test]
fn token_is_not_broadcast() {
    let mut s = server();
    join(&mut s, 1, IP_A, 0);
    s.client_connected(2, IP_B, 4000, 0);
    let out = s.on_bytes(2, TOKEN.as_bytes(), 0);
    assert_eq!(out.actions, vec![Action::Notify { to: 2, notice: Notice::Welcome }]);
    assert!(out.line.is_empty());
    assert!(s.client(2).unwrap().authed);
}

#[test]
fn pending_clients_hear_nothing() {
    let mut s = server();
    join(&mut s, 1, IP_A, 0);
    join(&mut s, 2, IP_B, 0);
    s.client_connected(3, IP_C, 4000, 0);
    let out = s.on_bytes(1, b"psst", 2 * SEC);
    assert_eq!(out.actions, vec![Action::Deliver { to: 2 }]);
    assert_eq!(out.line, b"psst\n".to_vec());
}

#[test]
fn control_characters_are_stripped_before_the_token_is_compared() {
    let mut s = server();
    s.client_connected(1, IP_A, 4000, 0);
    let mut raw = TOKEN.as_bytes().to_vec();
    raw.extend_from_slice(b"\r\n");
    raw.insert(3, 0x07);
    let out = s.on_bytes(1, &raw, MS);
    assert_eq!(out.actions, vec![Action::Notify { to: 1, notice: Notice::Welcome }]);
}

#[test]
fn broadcast_line_is_sanitized_payload_and_line_feed() {
    let mut s = server();
    join(&mut s, 1, IP_A, 0);
    join(&mut s, 2, IP_B, 0);
    let out = s.on_bytes(1, b"a\tb\r\nc\x1f", 3 * SEC);
    assert_eq!(out.line, b"abc\n".to_vec());
    assert_eq!(out.actions, vec![Action::Deliver { to: 2 }]);
}

#[test]
fn message_of_control_characters_only_is_an_empty_line() {
    let mut s = server();
    join(&mut s, 1, IP_A, 0);
    join(&mut s, 2, IP_B, 0);
    let out = s.on_bytes(1, b"\r\n", 3 * SEC);
    assert_eq!(out.line, b"\n".to_vec());
    assert_eq!(out.actions, vec![Action::Deliver { to: 2 }]);
}

#[test]
fn wrong_token_strike() {
    let mut s = server();
    s.client_connected(1, IP_A, 4000, 0);
    let out = s.on_bytes(1, b"WRONG", 0);
    assert_eq!(out.actions, vec![Action::Kick { id: 1, notice: Notice::InvalidToken }]);
    assert!(out.line.is_empty());
    assert_eq!(s.client(1), None);
    assert_eq!(s.sinner(IP_A), Some(Sinner::Striked(1)));
}

#[test]
fn wrong_token_forgives_before_it_strikes() {
    let mut s = server();
    for round in 0..12u64 {
        let now = round * 10 * MS;
        assert!(s.client_connected(round + 1, IP_A, 4000, now).is_empty());
        let out = s.on_bytes(round + 1, b"WRONG", now);
        assert_eq!(
            out.actions,
            vec![Action::Kick { id: round + 1, notice: Notice::InvalidToken }]
        );
        assert_eq!(s.sinner(IP_A), Some(Sinner::Striked(1)));
        assert_eq!(s.client_count(), 0);
    }
}

#[test]
fn flood() {
    let mut s = server();
    join(&mut s, 1, IP_A, 0);
    join(&mut s, 2, IP_B, 0);
    let first = s.on_bytes(1, b"one", 2 * SEC);
    assert_eq!(first.actions, vec![Action::Deliver { to: 2 }]);
    assert_eq!(first.line, b"one\n".to_vec());
    let second = s.on_bytes(1, b"two", 2 * SEC + 500 * MS);
    assert_eq!(second, quiet());
    assert_eq!(s.sinner(IP_A), Some(Sinner::Striked(1)));
    assert_eq!(s.client(1).unwrap().last_message, 2 * SEC as i128);
}

#[test]
fn ten_floods_fill_the_count_and_the_next_one_bans() {
    let mut s = server();
    join(&mut s, 1, IP_A, 0);
    s.client_connected(2, IP_A, 4001, 0);
    join(&mut s, 3, IP_B, 0);
    for n in 1..=10u64 {
        let out = s.on_bytes(1, b"spam", 100 * MS + n);
        assert_eq!(out, quiet());
        assert_eq!(s.sinner(IP_A), Some(Sinner::Striked(n as usize)));
    }
    assert_eq!(s.client_count(), 3);
    let at = 100 * MS + 11;
    let out = s.on_bytes(1, b"spam", at);
    assert_eq!(
        out.actions,
        vec![
            Action::Kick { id: 1, notice: Notice::BannedSinner },
            Action::Kick { id: 2, notice: Notice::BannedSinner },
        ]
    );
    assert!(out.line.is_empty());
    assert_eq!(s.sinner(IP_A), Some(Sinner::Banned(at)));
    assert_eq!(s.client_count(), 1);
    assert_eq!(s.clients()[0].id, 3);
}

#[test]
fn slow_connect() {
    let mut s = server();
    s.client_connected(1, IP_A, 4000, 0);
    assert!(s.on_tick(199 * MS).is_empty());
    assert_eq!(s.client_count(), 1);
    assert_eq!(s.on_tick(200 * MS), vec![Action::Shutdown { id: 1 }]);
    assert_eq!(s.client(1), None);
    assert_eq!(s.sinner(IP_A), Some(Sinner::Striked(1)));
}

#[test]
fn eleven_slow_connects_ban() {
    let mut s = server();
    for n in 1..=10u64 {
        let at = n * SEC;
        s.client_connected(n, IP_A, 4000, at);
        assert_eq!(s.on_tick(at + SLOWLORIS_LIMIT), vec![Action::Shutdown { id: n }]);
        assert_eq!(s.sinner(IP_A), Some(Sinner::Striked(n as usize)));
    }
    s.client_connected(11, IP_A, 4000, 11 * SEC);
    let at = 11 * SEC + SLOWLORIS_LIMIT;
    assert_eq!(s.on_tick(at), vec![Action::Shutdown { id: 11 }]);
    assert_eq!(s.sinner(IP_A), Some(Sinner::Banned(at)));
    assert_eq!(
        s.client_connected(12, IP_A, 4000, at),
        vec![Action::Kick { id: 12, notice: Notice::StillBanned { remaining: BAN_LIMIT } }]
    );
    assert_eq!(s.client_count(), 0);
}

#[test]
fn tick_leaves_authenticated_clients_alone() {
    let mut s = server();
    join(&mut s, 1, IP_A, 0);
    s.client_connected(2, IP_B, 4000, 0);
    assert_eq!(s.on_tick(10 * SEC), vec![Action::Shutdown { id: 2 }]);
    assert_eq!(s.client_count(), 1);
    assert_eq!(s.sinner(IP_B), Some(Sinner::Striked(1)));
    assert_eq!(s.sinner(IP_A), Some(Sinner::Striked(0)));
}

#[test]
fn tick_that_bans_removes_the_other_clients_of_the_address() {
    let mut s = server();
    for n in 1..=10usize {
        assert!(s.strike_ip(IP_A, 0).is_empty());
        assert_eq!(s.sinner(IP_A), Some(Sinner::Striked(n)));
    }
    join(&mut s, 1, IP_B, 0);
    s.client_connected(2, IP_A, 4000, 0);
    s.client_connected(3, IP_A, 4001, 150 * MS);
    assert_eq!(s.sinner(IP_A), Some(Sinner::Striked(10)));
    let out = s.on_tick(200 * MS);
    assert_eq!(
        out,
        vec![Action::Shutdown { id: 2 }, Action::Kick { id: 3, notice: Notice::BannedSinner }]
    );
    assert_eq!(s.sinner(IP_A), Some(Sinner::Banned(200 * MS)));
    assert_eq!(s.client_count(), 1);
    assert_eq!(s.clients()[0].id, 1);
}

#[test]
fn tick_with_clock_gone_backwards_expires_nobody() {
    let mut s = server();
    s.client_connected(1, IP_A, 4000, 10 * SEC);
    assert!(s.on_tick(SEC).is_empty());
    assert_eq!(s.client_count(), 1);
}

#[test]
fn ban_expiry() {
    let mut s = server();
    for n in 0..=STRIKE_LIMIT {
        assert_eq!(s.sinner(IP_A).is_some(), n > 0);
        assert!(s.strike_ip(IP_A, 0).is_empty());
    }
    assert_eq!(s.sinner(IP_A), Some(Sinner::Banned(0)));
    assert_eq!(
        s.client_connected(1, IP_A, 4000, BAN_LIMIT - MS),
        vec![Action::Kick { id: 1, notice: Notice::StillBanned { remaining: MS } }]
    );
    assert_eq!(s.client_count(), 0);
    assert_eq!(s.sinner(IP_A), Some(Sinner::Banned(0)));
    assert!(s.client_connected(2, IP_A, 4000, BAN_LIMIT + MS).is_empty());
    assert_eq!(s.sinner(IP_A), Some(Sinner::Striked(0)));
    let c = s.client(2).unwrap();
    assert!(!c.authed);
    assert_eq!(c.connected_at, BAN_LIMIT + MS);
}

#[test]
fn ban_runs_out_exactly_at_the_limit() {
    let mut s = server();
    for _ in 0..=STRIKE_LIMIT {
        s.strike_ip(IP_A, 5 * SEC);
    }
    assert_eq!(
        s.client_connected(1, IP_A, 1, 5 * SEC + BAN_LIMIT - 1),
        vec![Action::Kick { id: 1, notice: Notice::StillBanned { remaining: 1 } }]
    );
    assert!(s.client_connected(1, IP_A, 1, 5 * SEC + BAN_LIMIT).is_empty());
    assert_eq!(s.client_count(), 1);
}

#[test]
fn banned_connect_with_clock_gone_backwards_counts_the_whole_ban() {
    let mut s = server();
    for _ in 0..=STRIKE_LIMIT {
        s.strike_ip(IP_A, 50 * SEC);
    }
    assert_eq!(
        s.client_connected(1, IP_A, 1, 10 * SEC),
        vec![Action::Kick { id: 1, notice: Notice::StillBanned { remaining: BAN_LIMIT } }]
    );
}

#[test]
fn concurrent_fan_out() {
    let mut s = server();
    for id in 1..=100u64 {
        join(&mut s, id, 1000 + id as u128, 0);
    }
    let out = s.on_bytes(42, b"x", 5 * SEC);
    assert_eq!(out.line, b"x\n".to_vec());
    assert_eq!(out.actions.len(), 99);
    let mut heard: Vec<u64> = out
        .actions
        .iter()
        .map(|a| match a {
            Action::Deliver { to } => *to,
            other => panic!("unexpected action {:?}", other),
        })
        .collect();
    heard.sort();
    heard.dedup();
    assert_eq!(heard.len(), 99);
    assert!(!heard.contains(&42));
}

#[test]
fn strike_ip_counts_then_bans_exactly_once() {
    let mut s = server();
    join(&mut s, 1, IP_A, 0);
    let mut bans = 0;
    for n in 1..=(STRIKE_LIMIT as u64 + 1) {
        let before = s.sinner(IP_A);
        let actions = s.strike_ip(IP_A, n);
        let after = s.sinner(IP_A).unwrap();
        if !matches!(before, Some(Sinner::Banned(_))) && matches!(after, Sinner::Banned(_)) {
            bans += 1;
            assert_eq!(actions, vec![Action::Kick { id: 1, notice: Notice::BannedSinner }]);
        } else {
            assert!(actions.is_empty());
        }
    }
    assert_eq!(bans, 1);
    assert_eq!(s.sinner(IP_A), Some(Sinner::Banned(STRIKE_LIMIT as u64 + 1)));
    assert!(s.strike_ip(IP_A, 99).is_empty());
    assert_eq!(s.sinner(IP_A), Some(Sinner::Banned(STRIKE_LIMIT as u64 + 1)));
}

#[test]
fn strike_ip_on_banned_address_removes_its_clients() {
    let mut s = server();
    join(&mut s, 1, IP_A, 0);
    join(&mut s, 2, IP_B, 0);
    join(&mut s, 3, IP_A, 0);
    for _ in 0..STRIKE_LIMIT {
        assert!(s.strike_ip(IP_A, 0).is_empty());
    }
    assert_eq!(
        s.strike_ip(IP_A, 7),
        vec![
            Action::Kick { id: 1, notice: Notice::BannedSinner },
            Action::Kick { id: 3, notice: Notice::BannedSinner },
        ]
    );
    assert_eq!(s.client_count(), 1);
    assert_eq!(s.clients()[0].id, 2);
}

#[test]
fn legitimate_client_is_never_struck() {
    let mut s = server();
    s.client_connected(1, IP_A, 4000, 0);
    join(&mut s, 2, IP_B, 0);
    let out = s.on_bytes(1, TOKEN.as_bytes(), 0);
    assert_eq!(out.actions, vec![Action::Notify { to: 1, notice: Notice::Welcome }]);
    for n in 1..=20u64 {
        let out = s.on_bytes(1, b"tick", n * MESSAGE_RATE);
        assert_eq!(out.actions, vec![Action::Deliver { to: 2 }]);
        assert_eq!(s.sinner(IP_A), Some(Sinner::Striked(0)));
        assert!(s.client(1).unwrap().authed);
        assert_eq!(s.client(1).unwrap().last_message, (n * MESSAGE_RATE) as i128);
    }
    assert_eq!(s.client_count(), 2);
}

#[test]
fn message_one_nanosecond_early_is_a_strike() {
    let mut s = server();
    join(&mut s, 1, IP_A, SEC);
    assert_eq!(s.on_bytes(1, b"hi", 2 * SEC - 1), quiet());
    assert_eq!(s.sinner(IP_A), Some(Sinner::Striked(1)));
    assert_eq!(s.client(1).unwrap().last_message, SEC as i128);
}

#[test]
fn message_with_clock_gone_backwards_is_a_strike() {
    let mut s = server();
    join(&mut s, 1, IP_A, 100 * SEC);
    assert_eq!(s.on_bytes(1, b"hi", 50 * SEC), quiet());
    assert_eq!(s.sinner(IP_A), Some(Sinner::Striked(1)));
    assert_eq!(s.client(1).unwrap().last_message, 100 * SEC as i128);
}

#[test]
fn good_message_forgives_earlier_strikes() {
    let mut s = server();
    join(&mut s, 1, IP_A, 0);
    for _ in 0..5 {
        s.on_bytes(1, b"spam", 1);
    }
    assert_eq!(s.sinner(IP_A), Some(Sinner::Striked(5)));
    s.on_bytes(1, b"sorry", 2 * SEC);
    assert_eq!(s.sinner(IP_A), Some(Sinner::Striked(0)));
}

#[test]
fn invalid_utf8_is_dropped_without_a_strike() {
    let mut s = server();
    join(&mut s, 1, IP_A, 0);
    join(&mut s, 2, IP_B, 0);
    let before = s.client(1).unwrap();
    assert_eq!(s.on_bytes(1, &[0xff, 0xfe, b'a'], 5 * SEC), quiet());
    assert_eq!(s.client(1), Some(before));
    assert_eq!(s.sinner(IP_A), Some(Sinner::Striked(0)));
    let out = s.on_bytes(1, "h\u{e9}".as_bytes(), 5 * SEC);
    assert_eq!(out.line, "h\u{e9}\n".as_bytes().to_vec());
    assert_eq!(out.actions, vec![Action::Deliver { to: 2 }]);
}

#[test]
fn invalid_utf8_from_pending_client_changes_nothing() {
    let mut s = server();
    s.client_connected(1, IP_A, 4000, 0);
    assert_eq!(s.on_bytes(1, &[0xc3], SEC), quiet());
    assert_eq!(s.sinner(IP_A), None);
    assert!(!s.client(1).unwrap().authed);
}

#[test]
fn events_after_disconnect_are_noops() {
    let mut s = server();
    join(&mut s, 1, IP_A, 0);
    join(&mut s, 2, IP_B, 0);
    assert_eq!(s.on_disconnect(1), vec![Action::Forget { id: 1 }]);
    assert_eq!(s.sinner(IP_A), Some(Sinner::Striked(0)));
    let clients = s.clients();
    assert_eq!(s.on_bytes(1, b"ghost", 9 * SEC), quiet());
    assert!(s.on_disconnect(1).is_empty());
    assert!(s.on_read_error(1).is_empty());
    assert_eq!(s.client_read(1, ReadOutcome::Bytes(b"boo".to_vec()), 9 * SEC), quiet());
    assert_eq!(s.client_read(1, ReadOutcome::Failed, 9 * SEC), quiet());
    assert_eq!(s.handle(Event::Read { id: 1, bytes: b"boo".to_vec() }, 9 * SEC), quiet());
    assert_eq!(s.clients(), clients);
    assert_eq!(s.sinner(IP_A), Some(Sinner::Striked(0)));
}

#[test]
fn read_error_removes_without_a_strike() {
    let mut s = server();
    s.client_connected(1, IP_A, 4000, 0);
    assert_eq!(s.on_read_error(1), vec![Action::Forget { id: 1 }]);
    assert_eq!(s.client_count(), 0);
    assert_eq!(s.sinner(IP_A), None);
}

#[test]
fn client_read_sorts_outcomes() {
    let mut s = server();
    join(&mut s, 1, IP_A, 0);
    join(&mut s, 2, IP_B, 0);
    join(&mut s, 3, IP_C, 0);
    assert_eq!(s.client_read(1, ReadOutcome::WouldBlock, SEC), quiet());
    assert_eq!(s.client_count(), 3);
    let out = s.client_read(1, ReadOutcome::Bytes(b"hey".to_vec()), 2 * SEC);
    assert_eq!(out.line, b"hey\n".to_vec());
    assert_eq!(out.actions, vec![Action::Deliver { to: 2 }, Action::Deliver { to: 3 }]);
    let out = s.client_read(2, ReadOutcome::Bytes(vec![]), 2 * SEC);
    assert_eq!(out, Reaction { line: vec![], actions: vec![Action::Forget { id: 2 }] });
    let out = s.client_read(3, ReadOutcome::Failed, 2 * SEC);
    assert_eq!(out, Reaction { line: vec![], actions: vec![Action::Forget { id: 3 }] });
    assert_eq!(s.client_count(), 1);
}

#[test]
fn update_reads_then_sweeps() {
    let mut s = server();
    join(&mut s, 1, IP_A, 0);
    join(&mut s, 2, IP_B, 0);
    s.client_connected(3, IP_C, 4000, 0);
    let out = s.update(1, ReadOutcome::Bytes(b"late".to_vec()), 3 * SEC);
    assert_eq!(out.line, b"late\n".to_vec());
    assert_eq!(out.actions, vec![Action::Deliver { to: 2 }, Action::Shutdown { id: 3 }]);
    assert_eq!(s.sinner(IP_C), Some(Sinner::Striked(1)));
    assert_eq!(s.client_count(), 2);
}

#[test]
fn handle_dispatches_each_event() {
    let mut s = server();
    assert_eq!(s.handle(Event::Connected { id: 1, ip: IP_A, port: 1 }, 0), quiet());
    assert_eq!(s.handle(Event::Connected { id: 2, ip: IP_B, port: 2 }, 0), quiet());
    assert_eq!(
        s.handle(Event::Read { id: 1, bytes: TOKEN.as_bytes().to_vec() }, 0).actions,
        vec![Action::Notify { to: 1, notice: Notice::Welcome }]
    );
    assert_eq!(s.handle(Event::Tick, SEC).actions, vec![Action::Shutdown { id: 2 }]);
    assert_eq!(s.handle(Event::Disconnected { id: 1 }, SEC).actions, vec![Action::Forget {
        id: 1
    }]);
    assert_eq!(s.handle(Event::ReadError { id: 1 }, SEC), quiet());
    assert_eq!(s.client_count(), 0);
}

#[test]
fn last_message_never_goes_back() {
    let mut s = server();
    join(&mut s, 1, IP_A, 10 * SEC);
    join(&mut s, 2, IP_B, 10 * SEC);
    let mut last = s.client(1).unwrap().last_message;
    let times = [12 * SEC, 11 * SEC, 12 * SEC + 1, 13 * SEC, 5 * SEC, 14 * SEC, 20 * SEC];
    for (n, now) in times.iter().enumerate() {
        if n % 2 == 0 {
            s.on_bytes(1, b"m", *now);
        } else {
            s.on_bytes(2, b"m", *now);
            s.on_tick(*now);
        }
        let seen = s.client(1).unwrap().last_message;
        assert!(seen >= last);
        last = seen;
    }
    assert_eq!(last, 20 * SEC as i128);
}

#[test]
fn elapsed_is_zero_when_the_clock_went_backwards() {
    assert_eq!(elapsed(10, 3), 7);
    assert_eq!(elapsed(3, 10), 0);
    assert_eq!(elapsed(u64::MAX, 0), u64::MAX);
}

#[test]
fn stalled_means_pending_for_the_limit_or_longer() {
    let c = Client { id: 1, ip: 1, port: 1, last_message: 0, connected_at: SEC, authed: false };
    assert!(!stalled(&c, SEC + SLOWLORIS_LIMIT - 1));
    assert!(stalled(&c, SEC + SLOWLORIS_LIMIT));
    assert!(!stalled(&c, 0));
    assert!(!stalled(&Client { authed: true, ..c }, 100 * SEC));
}
