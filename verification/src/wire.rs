//! The lines that the server writes to a connection.

use vstd::prelude::*;
use vstd::string::StringExecFns;
use crate::model::Notice;

verus! {

/// The line that tells a client how long its address stays banned.
/// `seconds` is the time left, written as a number of seconds.
pub open spec fn spec_still_banned_line(seconds: Seq<char>) -> Seq<char> {
    "You are banned MF: "@ + seconds + " secs left\n"@
}

impl Notice {
    /// The line of a notice whose text is fixed.
    pub open spec fn spec_line(self) -> Option<Seq<char>> {
        match self {
            Notice::Welcome => Some("Welcome to the Club buddy!\n"@),
            Notice::InvalidToken => Some("Invalid token! Bruh!\n"@),
            Notice::BannedSinner => Some("You are banned Sinner!\n"@),
            Notice::StillBanned { .. } => None,
        }
    }

    /// The line to write for this notice, where its text is fixed. The
    /// line of `StillBanned` names the time left and is made by
    /// `still_banned_line`.
    pub fn line(self) -> (text: Option<&'static str>)
        ensures
            text is Some <==> self.spec_line() is Some,
            text is Some ==> text->0@ == self.spec_line()->0,
    {
        match self {
            Notice::Welcome => Some("Welcome to the Club buddy!\n"),
            Notice::InvalidToken => Some("Invalid token! Bruh!\n"),
            Notice::BannedSinner => Some("You are banned Sinner!\n"),
            Notice::StillBanned { .. } => None,
        }
    }
}

/// The line that turns a banned address away, with the time that is left
/// of the ban as `seconds` writes it.
pub fn still_banned_line(seconds: &str) -> (line: String)
    ensures
        line@ == spec_still_banned_line(seconds@),
{
    String::from_str("You are banned MF: ").concat(seconds).concat(" secs left\n")
}

} // verus!
