//! Process-wide monotonic identifier generation for connection ids and log
//! correlation ids: one explicit counter pair, injected into the transports
//! rather than read from ambient globals.
use crate::basics::ConnectionId;
use vstd::prelude::*;

verus! {

/// Monotonic id source: connection ids are never reused while the process
/// runs, and log ids are unique per connection.
#[derive(Debug)]
pub struct IdGenerator {
    pub next_connection_id: ConnectionId,
    pub next_log_id: u64,
}

impl IdGenerator {
    pub fn new() -> (r: Self)
        ensures
            r.next_connection_id == 1,
            r.next_log_id == 1,
    {
        Self { next_connection_id: 1, next_log_id: 1 }
    }

    /// The next fresh connection id.
    pub fn get_conn_id(&mut self) -> (r: ConnectionId)
        requires
            old(self).next_connection_id < ConnectionId::MAX,
        ensures
            r == old(self).next_connection_id,
            final(self).next_connection_id == old(self).next_connection_id + 1,
            final(self).next_log_id == old(self).next_log_id,
    {
        let r = self.next_connection_id;
        self.next_connection_id = self.next_connection_id + 1;
        r
    }

    /// The next fresh log correlation id.
    pub fn get_log_id(&mut self) -> (r: u64)
        requires
            old(self).next_log_id < u64::MAX,
        ensures
            r == old(self).next_log_id,
            final(self).next_log_id == old(self).next_log_id + 1,
            final(self).next_connection_id == old(self).next_connection_id,
    {
        let r = self.next_log_id;
        self.next_log_id = self.next_log_id + 1;
        r
    }
}

} // verus!
