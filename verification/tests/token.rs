use chat_broker::acceptor::Acceptor;
use chat_broker::config::redact;
use chat_broker::model::Notice;
use chat_broker::stress::{modes, usage, Mode, DRAGON_BUFFER_SIZE};
use chat_broker::token::{
    bytes_drawn, generate_token, hex, random_bytes, token_from, NoRandomness, TOKEN_BYTES,
};
use chat_broker::wire::still_banned_line;

#[test]
fn hex_writes_two_upper_case_digits_for_each_byte() {
    assert_eq!(hex(&[]), "");
    assert_eq!(hex(&[0x00]), "00");
    assert_eq!(hex(&[0x0a, 0xf0, 0xff, 0x12]), "0AF0FF12");
    assert_eq!(
        hex(&[0xab, 0xcd, 0xef, 0x01, 0x23, 0x45, 0x67, 0x89]),
        "ABCDEF0123456789"
    );
}

#[test]
fn generated_token_is_thirty_two_upper_case_hex_digits() {
    let token = generate_token().expect("random source");
    assert_eq!(token.len(), 2 * TOKEN_BYTES);
    assert!(token.chars().all(|c| c.is_ascii_digit() || ('A'..='F').contains(&c)));
}

#[test]
fn generated_tokens_differ() {
    let a = generate_token().expect("random source");
    let b = generate_token().expect("random source");
    assert_ne!(a, b);
}

#[test]
fn random_bytes_have_the_length_asked_for() {
    assert_eq!(random_bytes(0).expect("random source").len(), 0);
    assert_eq!(random_bytes(16).expect("random source").len(), 16);
    let blob = random_bytes(DRAGON_BUFFER_SIZE).expect("random source");
    assert_eq!(blob.len(), 1024);
    assert!(blob.iter().any(|b| *b != 0));
}

#[test]
fn no_random_bytes_are_always_to_be_had() {
    assert_eq!(random_bytes(0), Ok(vec![]));
}

#[test]
fn a_draw_is_its_buffer_or_the_failure() {
    assert_eq!(bytes_drawn(vec![1, 2, 3], Ok(())), Ok(vec![1, 2, 3]));
    assert_eq!(bytes_drawn(vec![], Ok(())), Ok(vec![]));
    assert_eq!(bytes_drawn(vec![1, 2, 3], Err(getrandom::Error::UNSUPPORTED)), Err(NoRandomness));
    assert_eq!(bytes_drawn(vec![], Err(getrandom::Error::UNEXPECTED)), Err(NoRandomness));
}

#[test]
fn a_token_is_the_hex_of_its_draw() {
    assert_eq!(token_from(Ok(vec![0xab, 0x01])), Ok("AB01".to_string()));
    assert_eq!(
        token_from(Ok(vec![
            0xab, 0xcd, 0xef, 0x01, 0x23, 0x45, 0x67, 0x89, 0xab, 0xcd, 0xef, 0x01, 0x23, 0x45,
            0x67, 0x89
        ])),
        Ok("ABCDEF0123456789ABCDEF0123456789".to_string())
    );
    assert_eq!(token_from(Ok(vec![])), Ok(String::new()));
    assert_eq!(token_from(Err(NoRandomness)), Err(NoRandomness));
}

#[test]
fn acceptor_hands_out_growing_identifiers() {
    let mut a = Acceptor::new();
    assert_eq!(a.next_id(), Some(1));
    assert_eq!(a.next_id(), Some(2));
    assert_eq!(a.next_id(), Some(3));
}

#[test]
fn notices_have_their_lines() {
    assert_eq!(Notice::Welcome.line(), Some("Welcome to the Club buddy!\n"));
    assert_eq!(Notice::InvalidToken.line(), Some("Invalid token! Bruh!\n"));
    assert_eq!(Notice::BannedSinner.line(), Some("You are banned Sinner!\n"));
    assert_eq!(Notice::StillBanned { remaining: 5 }.line(), None);
    assert_eq!(still_banned_line("600"), "You are banned MF: 600 secs left\n");
    assert_eq!(still_banned_line("0.001"), "You are banned MF: 0.001 secs left\n");
}

#[test]
fn redact_shows_the_value_outside_safe_mode() {
    assert_eq!(redact("127.0.0.1:6969"), "127.0.0.1:6969");
    assert_eq!(redact(""), "");
}

#[test]
fn modes_are_chosen_by_name() {
    assert_eq!(Mode::from_name("dragon"), Some(Mode::Dragon));
    assert_eq!(Mode::from_name("hydra"), Some(Mode::Hydra));
    assert_eq!(Mode::from_name("gnome"), Some(Mode::Gnome));
    assert_eq!(Mode::from_name("Dragon"), None);
    assert_eq!(Mode::from_name(""), None);
    assert_eq!(Mode::from_name("gnomes"), None);
    assert_eq!(modes(), vec![Mode::Dragon, Mode::Hydra, Mode::Gnome]);
    for m in modes() {
        assert_eq!(Mode::from_name(m.name()), Some(m));
    }
}

#[test]
fn usage_lists_the_modes() {
    assert_eq!(
        usage("pandora"),
        vec![
            "Usage: pandora <command>".to_string(),
            "Commands:".to_string(),
            "    dragon - Just connects and sends a lot of random data".to_string(),
            "    hydra - Opens as many connections as possible".to_string(),
            "    gnome - Keeps opening and closing connections".to_string(),
        ]
    );
}
