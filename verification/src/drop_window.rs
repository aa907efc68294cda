//! The Drop kept prepared, hidden, for the next mouse shake.
use crate::mouse_monitor::opt_view;
use vstd::prelude::*;

verus! {

/// Holds at most one prepared Drop id.
#[derive(Debug, Default)]
pub struct MouseDropPool {
    prepared_drop_id: Option<String>,
}

impl View for MouseDropPool {
    type V = Option<Seq<char>>;

    closed spec fn view(&self) -> Option<Seq<char>> {
        opt_view(self.prepared_drop_id)
    }
}

impl MouseDropPool {
    /// An empty pool.
    pub fn new() -> (pool: Self)
        ensures
            pool@ is None,
    {
        MouseDropPool { prepared_drop_id: None }
    }

    /// Takes the prepared Drop id out of the pool.
    pub fn take(&mut self) -> (taken: Option<String>)
        ensures
            opt_view(taken) == old(self)@,
            final(self)@ is None,
    {
        self.prepared_drop_id.take()
    }

    /// Puts a prepared Drop id in the pool; false, leaving the pool as it was,
    /// when it holds one already.
    pub fn store(&mut self, drop_id: String) -> (stored: bool)
        ensures
            stored == old(self)@ is None,
            stored ==> final(self)@ == Some(drop_id@),
            !stored ==> final(self)@ == old(self)@,
    {
        if self.prepared_drop_id.is_some() {
            return false;
        }
        self.prepared_drop_id = Some(drop_id);
        true
    }

    /// Whether a prepared Drop is waiting.
    pub fn is_ready(&self) -> (ready: bool)
        ensures
            ready == self@ is Some,
    {
        self.prepared_drop_id.is_some()
    }
}

} // verus!
