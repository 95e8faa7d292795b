use chat_broker::prompt::{word_left, word_right, Prompt};

fn prompt(text: &str, cursor: usize) -> Prompt {
    Prompt { buffer: text.chars().collect(), cursor, scroll: 0 }
}

fn text(p: &Prompt) -> String {
    p.buffer.iter().collect()
}

fn blanks(text: &str) -> Vec<bool> {
    text.chars().map(|c| c == ' ').collect()
}

#[test]
fn default_prompt_is_empty() {
    let p = Prompt::default();
    assert!(p.buffer.is_empty());
    assert_eq!((p.cursor, p.scroll), (0, 0));
}

#[test]
fn insert_puts_the_character_at_the_cursor() {
    let mut p = prompt("abd", 2);
    p.insert('c');
    assert_eq!(text(&p), "abcd");
    assert_eq!(p.cursor, 3);
}

#[test]
fn insert_past_the_end_appends() {
    let mut p = prompt("ab", 9);
    p.insert('c');
    assert_eq!(text(&p), "abc");
    assert_eq!(p.cursor, 3);
}

#[test]
fn insert_str_puts_the_text_at_the_cursor() {
    let mut p = prompt("held", 2);
    p.insert_str("llo wor");
    assert_eq!(text(&p), "hello world");
    assert_eq!(p.cursor, 9);
    p.insert_str("\u{e9}\u{4e16}");
    assert_eq!(text(&p), "hello wor\u{e9}\u{4e16}ld");
    assert_eq!(p.cursor, 11);
}

#[test]
fn insert_str_of_nothing_changes_nothing() {
    let mut p = prompt("ab", 7);
    p.scroll = 3;
    p.insert_str("");
    assert_eq!(text(&p), "ab");
    assert_eq!((p.cursor, p.scroll), (7, 3));
}

#[test]
fn left_and_right_char_stop_at_the_ends() {
    let mut p = prompt("ab", 1);
    p.left_char();
    assert_eq!(p.cursor, 0);
    p.left_char();
    assert_eq!(p.cursor, 0);
    p.right_char();
    p.right_char();
    assert_eq!(p.cursor, 2);
    p.right_char();
    assert_eq!(p.cursor, 2);
    p.cursor = 5;
    p.right_char();
    assert_eq!(p.cursor, 5);
}

#[test]
fn at_cursor_is_a_line_feed_at_the_end() {
    assert_eq!(prompt("abc", 1).at_cursor(), 'b');
    assert_eq!(prompt("abc", 3).at_cursor(), '\n');
    assert_eq!(prompt("abc", 30).at_cursor(), '\n');
    assert_eq!(prompt("", 0).at_cursor(), '\n');
}

#[test]
fn left_word_goes_to_the_start_of_the_word() {
    let mut p = prompt("hello brave world", 17);
    p.left_word();
    assert_eq!(p.cursor, 11);
    p.left_word();
    assert_eq!(p.cursor, 5);
    p.left_word();
    assert_eq!(p.cursor, 0);
    p.left_word();
    assert_eq!(p.cursor, 0);
}

#[test]
fn left_word_inside_a_word_stops_at_the_space_before_it() {
    let mut p = prompt("hello world", 8);
    p.left_word();
    assert_eq!(p.cursor, 5);
}

#[test]
fn left_word_knows_other_white_space_than_the_space() {
    let mut p = prompt("a\tb\u{a0}c", 5);
    p.left_word();
    assert_eq!(p.cursor, 3);
    p.left_word();
    assert_eq!(p.cursor, 1);
}

#[test]
fn right_word_goes_to_the_end_of_the_word() {
    let mut p = prompt("hello  brave world", 0);
    p.right_word();
    assert_eq!(p.cursor, 5);
    p.right_word();
    assert_eq!(p.cursor, 12);
    p.right_word();
    assert_eq!(p.cursor, 18);
    p.right_word();
    assert_eq!(p.cursor, 18);
}

#[test]
fn right_word_past_the_end_stays() {
    let mut p = prompt("ab", 7);
    p.right_word();
    assert_eq!(p.cursor, 7);
}

#[test]
fn word_left_on_given_blanks() {
    let line = blanks("ab  cd");
    assert_eq!(word_left(&line, true, 6), 3);
    assert_eq!(word_left(&line, false, 6), 3);
    assert_eq!(word_left(&line, false, 2), 0);
    assert_eq!(word_left(&line, true, 5), 3);
    assert_eq!(word_left(&line, true, 3), 0);
    assert_eq!(word_left(&line, true, 0), 0);
    assert_eq!(word_left(&line, true, 9), 3);
    assert_eq!(word_left(&[], true, 4), 0);
    assert_eq!(word_left(&[], false, 4), 0);
}

#[test]
fn word_right_on_given_blanks() {
    let line = blanks("ab  cd ");
    assert_eq!(word_right(&line, 0), 2);
    assert_eq!(word_right(&line, 2), 6);
    assert_eq!(word_right(&line, 6), 7);
    assert_eq!(word_right(&line, 7), 7);
    assert_eq!(word_right(&line, 70), 70);
    assert_eq!(word_right(&[], 0), 0);
}

#[test]
fn backspace_takes_the_character_left_of_the_cursor() {
    let mut p = prompt("abc", 2);
    p.backspace();
    assert_eq!(text(&p), "ac");
    assert_eq!(p.cursor, 1);
    p.backspace();
    assert_eq!(text(&p), "c");
    assert_eq!(p.cursor, 0);
    p.backspace();
    assert_eq!(text(&p), "c");
    assert_eq!(p.cursor, 0);
}

#[test]
fn before_and_after_cursor_split_the_line() {
    let p = prompt("/connect me", 8);
    assert_eq!(p.before_cursor().iter().collect::<String>(), "/connect");
    assert_eq!(p.after_cursor().iter().collect::<String>(), " me");
    let q = prompt("ab", 2);
    assert_eq!(q.before_cursor().len(), 2);
    assert!(q.after_cursor().is_empty());
}

#[test]
fn clear_empties_the_line() {
    let mut p = prompt("abc", 2);
    p.scroll = 1;
    p.clear();
    assert!(p.buffer.is_empty());
    assert_eq!((p.cursor, p.scroll), (0, 1));
}

#[test]
fn delete_until_end_cuts_at_the_cursor() {
    let mut p = prompt("hello world", 5);
    p.delete_until_end();
    assert_eq!(text(&p), "hello");
    assert_eq!(p.cursor, 5);
    p.delete_until_end();
    assert_eq!(text(&p), "hello");
    p.cursor = 9;
    p.delete_until_end();
    assert_eq!(text(&p), "hello");
    assert_eq!(p.cursor, 9);
}

#[test]
fn sync_scroll_follows_the_cursor() {
    let mut p = prompt("0123456789", 2);
    p.scroll = 5;
    p.sync_scroll_with_cursor(4);
    assert_eq!(p.scroll, 2);
    p.cursor = 9;
    p.sync_scroll_with_cursor(4);
    assert_eq!(p.scroll, 5);
    p.cursor = 7;
    p.sync_scroll_with_cursor(4);
    assert_eq!(p.scroll, 5);
    p.sync_scroll_with_cursor(0);
    assert_eq!(p.scroll, 7);
    p.sync_scroll_with_cursor(usize::MAX);
    assert_eq!(p.scroll, 7);
}
