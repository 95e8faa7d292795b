//! Names for connections: each accepted connection gets an identifier that
//! no connection had before it.

use vstd::prelude::*;

verus! {

/// The source of connection identifiers. Zero is never handed out: it
/// stands for the listening socket.
pub struct Acceptor {
    last: u64,
}

impl Acceptor {
    /// The identifier handed out last, or zero before the first.
    pub closed spec fn last(&self) -> u64 {
        self.last
    }

    pub fn new() -> (acceptor: Acceptor)
        ensures
            acceptor.last() == 0,
    {
        Acceptor { last: 0 }
    }

    /// The next identifier: one more than the last, and so greater than
    /// every identifier before it. None when every identifier has been handed
    /// out.
    pub fn next_id(&mut self) -> (id: Option<u64>)
        ensures
            match id {
                Some(fresh) => fresh == old(self).last() + 1 && final(self).last() == fresh,
                None => old(self).last() == u64::MAX && final(self).last() == old(self).last(),
            },
    {
        if self.last < u64::MAX {
            self.last += 1;
            Some(self.last)
        } else {
            None
        }
    }
}

} // verus!
