//! The process-wide ID source: every prepared frame and every listener
//! attachment draws a fresh, strictly increasing integer from one counter.

use vstd::prelude::*;

verus! {

/// Hands out strictly increasing identifiers, starting from 1.
pub struct Context {
    /// The next identifier that `get_id` will return.
    pub id: u64,
}

impl Context {
    /// A fresh counter whose first identifier is 1.
    pub fn new() -> (r: Context)
        ensures
            r.id == 1,
    {
        Context { id: 1 }
    }

    /// Returns the current identifier and advances the counter, so that
    /// every identifier is handed out at most once.
    pub fn get_id(&mut self) -> (r: u64)
        requires
            old(self).id < u64::MAX,
        ensures
            r == old(self).id,
            final(self).id == old(self).id + 1,
    {
        let id = self.id;
        self.id = self.id + 1;
        id
    }
}

} // verus!
