//! What the server and the client do to raw bytes before they read them as
//! text.

use vstd::prelude::*;
use vstd::string::StringSliceAdditionalSpecFns;
use vstd::utf8::{decode_utf8, valid_utf8};

verus! {

/// Bytes below the space character are control characters.
pub open spec fn spec_is_printable(b: u8) -> bool {
    b >= 32
}

/// `bytes` without its control characters.
pub open spec fn spec_sanitize(bytes: Seq<u8>) -> Seq<u8> {
    bytes.filter(|b: u8| spec_is_printable(b))
}

/// Drops every byte below 0x20, carriage return and line feed among them.
pub fn sanitize(bytes: &[u8]) -> (out: Vec<u8>)
    ensures
        out@ == spec_sanitize(bytes@),
        out@.len() <= bytes@.len(),
        forall|i: int| 0 <= i < out@.len() ==> spec_is_printable(#[trigger] out@[i]),
{
    broadcast use vstd::seq_lib::group_filter_ensures;

    let ghost keep = |b: u8| spec_is_printable(b);
    let mut out: Vec<u8> = Vec::new();
    let mut i: usize = 0;
    proof {
        reveal(Seq::filter);
        assert(bytes@.take(0) =~= Seq::<u8>::empty());
    }
    while i < bytes.len()
        invariant
            i <= bytes.len(),
            keep == (|b: u8| spec_is_printable(b)),
            out@ == bytes@.take(i as int).filter(keep),
        decreases bytes.len() - i,
    {
        let b = bytes[i];
        proof {
            assert(bytes@.take(i + 1) =~= bytes@.take(i as int).push(b));
            Seq::lemma_filter_push(bytes@.take(i as int), b, keep);
        }
        if b >= 32 {
            out.push(b);
        }
        i += 1;
    }
    proof {
        assert(bytes@.take(bytes.len() as int) =~= bytes@);
    }
    out
}

/// `std::str::from_utf8`: the bytes as a string slice, where they are valid
/// UTF-8, and nothing where they are not. The slice is made of the very
/// bytes that were given.
#[verifier::external_body]
fn from_utf8(bytes: &[u8]) -> (text: Option<&str>)
    ensures
        text is Some <==> valid_utf8(bytes@),
        text is Some ==> text->0.spec_bytes() == bytes@,
{
    std::str::from_utf8(bytes).ok()
}

/// The text that `bytes` encode, where they are valid UTF-8, and nothing
/// where they are not.
pub fn utf8_text(bytes: &[u8]) -> (text: Option<&str>)
    ensures
        text is Some <==> valid_utf8(bytes@),
        text is Some ==> text->0@ == decode_utf8(bytes@),
{
    let text = from_utf8(bytes);
    proof {
        if text is Some {
            vstd::utf8::encode_utf8_decode_utf8(text->0@);
        }
    }
    text
}

} // verus!
