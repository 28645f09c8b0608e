//! The key schedule: per-direction record sequence counters.
//!
//! Authenticated encryption derives each record's nonce from a monotonic
//! per-direction counter. Exactly one increment must happen per record
//! transmitted (write direction) or accepted as decrypted (read direction);
//! a missed or doubled increment desynchronizes the connection from the
//! peer for good.

use vstd::prelude::*;

verus! {

/// Derived key material together with the two record counters. Only the
/// counters are modeled; the connection driver never looks at key bytes.
pub struct KeySchedule {
    write_counter: u64,
    read_counter: u64,
}

impl KeySchedule {
    /// Sequence number the next transmitted record will carry.
    pub closed spec fn write_count(&self) -> u64 {
        self.write_counter
    }

    /// Sequence number the next accepted record must carry.
    pub closed spec fn read_count(&self) -> u64 {
        self.read_counter
    }

    /// A fresh schedule: both directions start at zero.
    pub fn new() -> (ks: KeySchedule)
        ensures
            ks.write_count() == 0,
            ks.read_count() == 0,
    {
        KeySchedule { write_counter: 0, read_counter: 0 }
    }

    pub fn write_counter(&self) -> (c: u64)
        ensures
            c == self.write_count(),
    {
        self.write_counter
    }

    pub fn read_counter(&self) -> (c: u64)
        ensures
            c == self.read_count(),
    {
        self.read_counter
    }

    /// Advance the write direction by exactly one record.
    pub fn increment_write_counter(&mut self)
        requires
            old(self).write_count() < u64::MAX,
        ensures
            final(self).write_count() == old(self).write_count() + 1,
            final(self).read_count() == old(self).read_count(),
    {
        self.write_counter = self.write_counter + 1;
    }

    /// Advance the read direction by exactly one record.
    pub fn increment_read_counter(&mut self)
        requires
            old(self).read_count() < u64::MAX,
        ensures
            final(self).read_count() == old(self).read_count() + 1,
            final(self).write_count() == old(self).write_count(),
    {
        self.read_counter = self.read_counter + 1;
    }
}

} // verus!
