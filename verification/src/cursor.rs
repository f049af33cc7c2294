//! A cursor over a list of argument tokens, with one-token rewind.
//!
//! This is the scan-position abstraction the argument parser walks:
//! `accept` hands out the next token and advances, `refund` steps back by
//! one token, and `expect` is `accept` that turns exhaustion into an error.

use vstd::prelude::*;
use crate::bytes::clone_bytes;
use crate::args::ArgError;

verus! {

/// A read position in an ordered list of byte-string tokens.
pub struct Iterator {
    pub items: Vec<Vec<u8>>,
    pub index: usize,
}

impl Iterator {
    /// A cursor standing before the first token of `items`.
    pub fn new(items: Vec<Vec<u8>>) -> (r: Iterator)
        ensures
            r.items == items,
            r.index == 0,
    {
        Iterator { index: 0, items }
    }

    /// Hands out a copy of the token under the cursor and advances past it;
    /// `None` once every token has been consumed.
    pub fn accept(&mut self) -> (r: Option<Vec<u8>>)
        ensures
            final(self).items == old(self).items,
            old(self).index < old(self).items.len() ==> {
                &&& final(self).index == old(self).index + 1
                &&& r is Some
                &&& r.unwrap()@ == old(self).items.deep_view()[old(self).index as int]
            },
            old(self).index >= old(self).items.len() ==> {
                &&& final(self).index == old(self).index
                &&& r is None
            },
    {
        if self.index < self.items.len() {
            self.index = self.index + 1;
            let t = clone_bytes(&self.items[self.index - 1]);
            proof {
                assert(t@ =~= self.items.deep_view()[self.index - 1]);
            }
            Some(t)
        } else {
            None
        }
    }

    /// Steps back by one token, so the token just accepted is offered again.
    pub fn refund(&mut self)
        requires
            old(self).index >= 1,
        ensures
            final(self).items == old(self).items,
            final(self).index == old(self).index - 1,
    {
        self.index = self.index - 1;
    }

    /// Like `accept`, but a missing token is the error `err`.
    pub fn expect(&mut self, err: ArgError) -> (r: Result<Vec<u8>, ArgError>)
        ensures
            final(self).items == old(self).items,
            old(self).index < old(self).items.len() ==> {
                &&& final(self).index == old(self).index + 1
                &&& r is Ok
                &&& r.unwrap()@ == old(self).items.deep_view()[old(self).index as int]
            },
            old(self).index >= old(self).items.len() ==> {
                &&& final(self).index == old(self).index
                &&& r == Err::<Vec<u8>, ArgError>(err)
            },
    {
        match self.accept() {
            Some(t) => Ok(t),
            None => Err(err),
        }
    }
}

} // verus!
