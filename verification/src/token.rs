//! The access token: sixteen random bytes, written as thirty-two upper-case
//! hexadecimal digits.

use vstd::prelude::*;
use vstd::string::StringExecFns;

verus! {

/// How many random bytes make a token.
pub const TOKEN_BYTES: usize = 16;

#[verifier::external_type_specification]
#[verifier::external_body]
pub struct ExRandomError(getrandom::Error);

/// The system's source of randomness failed.
#[derive(Clone, Copy, Debug, PartialEq, Eq)]
pub struct NoRandomness;

/// The upper-case hexadecimal digit of `nibble`.
pub open spec fn spec_hex_digit(nibble: int) -> char {
    "0123456789ABCDEF"@[nibble]
}

/// Two digits for each byte, the high half first.
pub open spec fn spec_hex(bytes: Seq<u8>) -> Seq<char> {
    Seq::new(
        2 * bytes.len(),
        |i: int|
            spec_hex_digit(
                if i % 2 == 0 {
                    bytes[i / 2] as int / 16
                } else {
                    bytes[i / 2] as int % 16
                },
            ),
    )
}

fn hex_digit(nibble: u8) -> (digit: &'static str)
    requires
        nibble < 16,
    ensures
        digit@ == seq![spec_hex_digit(nibble as int)],
{
    proof {
        reveal_strlit("0123456789ABCDEF");
        reveal_strlit("0");
        reveal_strlit("1");
        reveal_strlit("2");
        reveal_strlit("3");
        reveal_strlit("4");
        reveal_strlit("5");
        reveal_strlit("6");
        reveal_strlit("7");
        reveal_strlit("8");
        reveal_strlit("9");
        reveal_strlit("A");
        reveal_strlit("B");
        reveal_strlit("C");
        reveal_strlit("D");
        reveal_strlit("E");
        reveal_strlit("F");
    }
    let digit = match nibble {
        0 => "0",
        1 => "1",
        2 => "2",
        3 => "3",
        4 => "4",
        5 => "5",
        6 => "6",
        7 => "7",
        8 => "8",
        9 => "9",
        10 => "A",
        11 => "B",
        12 => "C",
        13 => "D",
        14 => "E",
        _ => "F",
    };
    assert(digit@ =~= seq![spec_hex_digit(nibble as int)]);
    digit
}

/// Writes `bytes` as upper-case hexadecimal digits, two for each byte.
pub fn hex(bytes: &[u8]) -> (text: String)
    ensures
        text@ == spec_hex(bytes@),
{
    let mut text = String::new();
    let mut i: usize = 0;
    while i < bytes.len()
        invariant
            i <= bytes.len(),
            text@ == spec_hex(bytes@.take(i as int)),
        decreases bytes.len() - i,
    {
        let b = bytes[i];
        text.append(hex_digit(b / 16));
        text.append(hex_digit(b % 16));
        proof {
            let before = bytes@.take(i as int);
            let after = bytes@.take(i + 1);
            assert(text@ =~= spec_hex(after)) by {
                assert forall|k: int| 0 <= k < 2 * i implies spec_hex(before)[k] == spec_hex(
                    after,
                )[k] by {
                    assert(before[k / 2] == after[k / 2]);
                }
                assert(after[(2 * i) / 2] == b);
                assert(after[(2 * i + 1) / 2] == b);
            }
        }
        i += 1;
    }
    proof {
        assert(bytes@.take(bytes.len() as int) =~= bytes@);
    }
    text
}

/// `getrandom::getrandom`: fills `dest` from the system's source of
/// randomness, or fails. Either way `dest` keeps its length; nothing is known
/// of what it holds afterwards. An empty `dest` is never a failure: the
/// source is not even asked.
#[verifier::external_body]
fn fill_random(dest: &mut Vec<u8>) -> (filled: Result<(), getrandom::Error>)
    ensures
        final(dest)@.len() == old(dest)@.len(),
        old(dest)@.len() == 0 ==> filled is Ok,
{
    getrandom::getrandom(dest.as_mut_slice())
}

/// What a draw comes to: the buffer, where the source of randomness filled
/// it, and the failure where it did not.
pub fn bytes_drawn(buffer: Vec<u8>, filled: Result<(), getrandom::Error>) -> (bytes: Result<
    Vec<u8>,
    NoRandomness,
>)
    ensures
        bytes is Ok <==> filled is Ok,
        bytes is Ok ==> bytes->Ok_0@ == buffer@,
{
    match filled {
        Ok(()) => Ok(buffer),
        Err(_) => Err(NoRandomness),
    }
}

/// The token that is made of a draw: the hexadecimal digits of the bytes
/// that were drawn, and the failure where none were.
pub fn token_from(drawn: Result<Vec<u8>, NoRandomness>) -> (token: Result<String, NoRandomness>)
    ensures
        token is Ok <==> drawn is Ok,
        token is Ok ==> token->Ok_0@ == spec_hex(drawn->Ok_0@),
{
    match drawn {
        Ok(bytes) => Ok(hex(bytes.as_slice())),
        Err(e) => Err(e),
    }
}

/// `n` random bytes. Fails where the source of randomness does, which it
/// cannot where no byte is asked for.
pub fn random_bytes(n: usize) -> (bytes: Result<Vec<u8>, NoRandomness>)
    ensures
        bytes is Ok ==> bytes->Ok_0@.len() == n,
        n == 0 ==> bytes is Ok,
{
    let mut buffer: Vec<u8> = Vec::new();
    let mut i: usize = 0;
    while i < n
        invariant
            i <= n,
            buffer@.len() == i,
        decreases n - i,
    {
        buffer.push(0u8);
        i += 1;
    }
    let filled = fill_random(&mut buffer);
    bytes_drawn(buffer, filled)
}

/// A fresh token: the hexadecimal digits of sixteen random bytes. Fails
/// where the source of randomness does.
pub fn generate_token() -> (token: Result<String, NoRandomness>)
    ensures
        token is Ok ==> exists|bytes: Seq<u8>|
            bytes.len() == TOKEN_BYTES && token->Ok_0@ == #[trigger] spec_hex(bytes),
{
    token_from(random_bytes(TOKEN_BYTES))
}

} // verus!
