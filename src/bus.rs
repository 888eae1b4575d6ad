//! A subscriber's mailbox on the event bus: bounded, it never holds back the
//! publisher; when full it drops its oldest event and counts the loss.

use vstd::prelude::*;

verus! {

pub struct SubscriberQueue<E> {
    pub events: Vec<E>,
    pub capacity: usize,
    /// Events dropped because the subscriber fell behind.
    pub lag: u64,
}

impl<E> SubscriberQueue<E> {
    pub fn new(capacity: usize) -> (r: SubscriberQueue<E>)
        ensures
            r.events@.len() == 0,
            r.capacity == capacity,
            r.lag == 0,
    {
        SubscriberQueue { events: Vec::new(), capacity, lag: 0 }
    }

    /// Delivers `e`; a full mailbox first drops its oldest event (with no room
    /// at all, `e` itself is dropped).
    pub fn publish(&mut self, e: E)
        requires
            old(self).events@.len() <= old(self).capacity,
        ensures
            final(self).capacity == old(self).capacity,
            final(self).events@.len() <= final(self).capacity,
            old(self).capacity == 0 ==> final(self).events@ == old(self).events@,
            old(self).capacity > 0 && old(self).events@.len() < old(self).capacity ==> final(self).events@
                == old(self).events@.push(e) && final(self).lag == old(self).lag,
            old(self).capacity > 0 && old(self).events@.len() == old(self).capacity ==> final(self).events@
                == old(self).events@.drop_first().push(e),
            (old(self).events@.len() == old(self).capacity) ==> final(self).lag == if old(self).lag
                == u64::MAX {
                u64::MAX
            } else {
                (old(self).lag + 1) as u64
            },
    {
        if self.events.len() == self.capacity {
            self.lag = self.lag.saturating_add(1);
            if self.capacity == 0 {
                return;
            }
            let _ = self.events.remove(0);
        }
        self.events.push(e);
    }

    /// Takes the oldest event waiting, if any.
    pub fn next(&mut self) -> (r: Option<E>)
        ensures
            final(self).capacity == old(self).capacity,
            final(self).lag == old(self).lag,
            old(self).events@.len() == 0 ==> r.is_none() && final(self).events@ == old(self).events@,
            old(self).events@.len() > 0 ==> r == Some(old(self).events@[0]) && final(self).events@
                == old(self).events@.drop_first(),
    {
        if self.events.len() == 0 {
            return None;
        }
        Some(self.events.remove(0))
    }
}

} // verus!
