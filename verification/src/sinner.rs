//! The standing of one address: a count of strikes, or a ban with its start.

use vstd::prelude::*;
use crate::config::STRIKE_LIMIT;

verus! {

#[derive(Clone, Copy, Debug, PartialEq, Eq, Structural)]
pub enum Sinner {
    /// Strikes collected since the last forgiveness.
    Striked(usize),
    /// Banned, since the instant given.
    Banned(u64),
}

/// What one strike at `now` makes of `s`.
pub open spec fn spec_strike(s: Sinner, now: u64) -> Sinner {
    match s {
        Sinner::Striked(n) => if n >= STRIKE_LIMIT {
            Sinner::Banned(now)
        } else {
            Sinner::Striked((n + 1) as usize)
        },
        Sinner::Banned(since) => Sinner::Banned(since),
    }
}

impl Sinner {
    /// A strike count never exceeds the limit.
    pub open spec fn wf(self) -> bool {
        match self {
            Sinner::Striked(n) => n <= STRIKE_LIMIT,
            Sinner::Banned(_) => true,
        }
    }

    pub open spec fn is_banned(self) -> bool {
        self is Banned
    }

    pub fn new() -> (s: Sinner)
        ensures
            s == Sinner::Striked(0),
            s.wf(),
    {
        Sinner::Striked(0)
    }

    pub fn forgive(&mut self)
        ensures
            *final(self) == Sinner::Striked(0),
    {
        *self = Sinner::Striked(0);
    }

    /// Records one strike at `now` and says whether the address is banned
    /// afterwards.
    pub fn strike(&mut self, now: u64) -> (banned: bool)
        ensures
            *final(self) == spec_strike(*old(self), now),
            banned == final(self).is_banned(),
            final(self).wf(),
    {
        match *self {
            Sinner::Striked(n) => {
                if n >= STRIKE_LIMIT {
                    *self = Sinner::Banned(now);
                    true
                } else {
                    *self = Sinner::Striked(n + 1);
                    false
                }
            },
            Sinner::Banned(_) => true,
        }
    }
}

/// What a run of strikes, one at each of `times` in turn, makes of `s`.
pub open spec fn spec_strikes(s: Sinner, times: Seq<u64>) -> Sinner
    decreases times.len(),
{
    if times.len() == 0 {
        s
    } else {
        spec_strike(spec_strikes(s, times.drop_last()), times.last())
    }
}

/// How many strikes of the run turned a strike count into a ban.
pub open spec fn spec_ban_transitions(s: Sinner, times: Seq<u64>) -> nat
    decreases times.len(),
{
    if times.len() == 0 {
        0
    } else {
        let before = spec_strikes(s, times.drop_last());
        let step: nat = if before is Striked && spec_strike(before, times.last()) is Banned {
            1
        } else {
            0
        };
        spec_ban_transitions(s, times.drop_last()) + step
    }
}

/// A run of strikes on a count of `n` keeps counting while the limit allows,
/// bans at the first strike past the limit, with that strike's instant, and
/// never bans twice.
pub proof fn lemma_strikes_from_count(n: usize, times: Seq<u64>)
    requires
        n <= STRIKE_LIMIT,
    ensures
        times.len() <= STRIKE_LIMIT - n ==> {
            &&& spec_strikes(Sinner::Striked(n), times) == Sinner::Striked(
                (n + times.len()) as usize,
            )
            &&& spec_ban_transitions(Sinner::Striked(n), times) == 0
        },
        times.len() > STRIKE_LIMIT - n ==> {
            &&& spec_strikes(Sinner::Striked(n), times) == Sinner::Banned(
                times[STRIKE_LIMIT - n],
            )
            &&& spec_ban_transitions(Sinner::Striked(n), times) == 1
        },
    decreases times.len(),
{
    if times.len() > 0 {
        lemma_strikes_from_count(n, times.drop_last());
    }
}

/// One strike more than the limit, with no forgiveness between them, bans an
/// address that was not banned, and exactly one of those strikes is the one
/// that bans.
pub proof fn lemma_limit_plus_one_strikes_ban_once(s: Sinner, times: Seq<u64>)
    requires
        s.wf(),
        s is Striked,
        times.len() == STRIKE_LIMIT + 1,
    ensures
        spec_strikes(s, times) is Banned,
        spec_ban_transitions(s, times) == 1,
{
    lemma_strikes_from_count(s->Striked_0, times);
}

/// Strikes leave a ban as it is.
pub proof fn lemma_strikes_keep_ban(since: u64, times: Seq<u64>)
    ensures
        spec_strikes(Sinner::Banned(since), times) == Sinner::Banned(since),
        spec_ban_transitions(Sinner::Banned(since), times) == 0,
    decreases times.len(),
{
    if times.len() > 0 {
        lemma_strikes_keep_ban(since, times.drop_last());
    }
}

} // verus!
