//! Identifiers of shells and users, and the counter that hands them out.

use vstd::prelude::*;

verus! {

/// Identifies a shell within a session.
#[derive(Clone, Copy, Debug, PartialEq, Eq, Structural, Hash)]
pub struct Sid(pub u32);

/// Identifies a user connected to a session.
#[derive(Clone, Copy, Debug, PartialEq, Eq, Structural, Hash)]
pub struct Uid(pub u32);

impl Sid {
    pub open spec fn val(self) -> u32 {
        self.0
    }
}

impl Uid {
    pub open spec fn val(self) -> u32 {
        self.0
    }
}

/// The successor of a counter value, wrapping around at the end of `u32`.
pub open spec fn next_id(n: u32) -> u32 {
    if n == u32::MAX {
        0
    } else {
        (n + 1) as u32
    }
}

/// Hands out fresh shell and user identifiers, both starting at 1.
pub struct IdCounter {
    next_sid: u32,
    next_uid: u32,
}

impl IdCounter {
    /// The identifier the next call of `next_sid` returns.
    pub closed spec fn sid_value(&self) -> u32 {
        self.next_sid
    }

    /// The identifier the next call of `next_uid` returns.
    pub closed spec fn uid_value(&self) -> u32 {
        self.next_uid
    }

    pub fn new() -> (c: Self)
        ensures
            c.sid_value() == 1,
            c.uid_value() == 1,
    {
        IdCounter { next_sid: 1, next_uid: 1 }
    }

    /// Returns a fresh shell identifier.
    pub fn next_sid(&mut self) -> (id: Sid)
        ensures
            id.0 == old(self).sid_value(),
            final(self).sid_value() == next_id(old(self).sid_value()),
            final(self).uid_value() == old(self).uid_value(),
    {
        let id = self.next_sid;
        self.next_sid = self.next_sid.wrapping_add(1);
        Sid(id)
    }

    /// Returns a fresh user identifier.
    pub fn next_uid(&mut self) -> (id: Uid)
        ensures
            id.0 == old(self).uid_value(),
            final(self).uid_value() == next_id(old(self).uid_value()),
            final(self).sid_value() == old(self).sid_value(),
    {
        let id = self.next_uid;
        self.next_uid = self.next_uid.wrapping_add(1);
        Uid(id)
    }

    /// The identifiers the next two calls would return.
    pub fn get_current_values(&self) -> (r: (Sid, Uid))
        ensures
            r.0.val() == self.sid_value(),
            r.1.0 == self.uid_value(),
    {
        (Sid(self.next_sid), Uid(self.next_uid))
    }

    /// Resets the counter to the given values.
    pub fn set_current_values(&mut self, sid: Sid, uid: Uid)
        ensures
            final(self).sid_value() == sid.0,
            final(self).uid_value() == uid.0,
    {
        self.next_sid = sid.0;
        self.next_uid = uid.0;
    }
}

/// Identifiers handed out one after another are distinct as long as fewer
/// than 2^32 of them have been handed out: the `k`-th value after `n` is
/// `n + k` modulo 2^32.
pub open spec fn nth_id(n: u32, k: nat) -> u32
    decreases k,
{
    if k == 0 {
        n
    } else {
        next_id(nth_id(n, (k - 1) as nat))
    }
}

pub proof fn law_ids_count_up(n: u32, k: nat)
    ensures
        nth_id(n, k) == (n + k) % 0x1_0000_0000,
    decreases k,
{
    if k > 0 {
        law_ids_count_up(n, (k - 1) as nat);
    }
}

} // verus!
