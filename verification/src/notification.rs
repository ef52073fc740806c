//! The message center: a bounded history of notifications.
use std::collections::VecDeque;

use vstd::prelude::*;

use crate::text::{chars_of, string_from_range, trim, trim_bounds};

verus! {

/// The severity of a notification.
#[derive(Clone, Copy, Debug, PartialEq, Eq, Structural)]
pub enum MessageKind {
    Info,
    Success,
    Warning,
    Error,
}

/// One recorded notification.
#[derive(Clone, Debug)]
pub struct MessageEntry {
    pub id: u64,
    pub kind: MessageKind,
    pub message: String,
}

/// The notifications recorded so far, oldest first, at most `max_messages`.
pub struct NotifyState {
    pub messages: VecDeque<MessageEntry>,
    next_id: u64,
    max_messages: usize,
}

/// The last `max` entries of `s` (all of them when there are fewer).
pub open spec fn keep_last<T>(s: Seq<T>, max: nat) -> Seq<T> {
    if s.len() <= max {
        s
    } else {
        s.skip(s.len() - max)
    }
}

impl Default for NotifyState {
    /// An empty history keeping up to 200 notifications; ids start at 1.
    fn default() -> (s: Self)
        ensures
            s.entries().len() == 0,
            s.next_id() == 1,
            s.max_messages() == 200,
    {
        NotifyState { messages: VecDeque::new(), next_id: 1, max_messages: 200 }
    }
}

impl NotifyState {
    /// The recorded notifications, oldest first.
    pub closed spec fn entries(&self) -> Seq<MessageEntry> {
        self.messages@
    }

    /// The id the next notification gets.
    pub closed spec fn next_id(&self) -> u64 {
        self.next_id
    }

    /// How many notifications are kept.
    pub closed spec fn max_messages(&self) -> usize {
        self.max_messages
    }

    /// Forgets every notification; ids keep counting.
    pub fn clear(&mut self)
        ensures
            final(self).entries().len() == 0,
            final(self).next_id() == old(self).next_id(),
            final(self).max_messages() == old(self).max_messages(),
    {
        self.messages.clear();
    }

    /// Records a notification with its message trimmed and returns its id;
    /// a blank message is not recorded and gets id 0.  The oldest entries
    /// are dropped beyond the limit.
    pub fn push(&mut self, kind: MessageKind, message: &str) -> (id: u64)
        ensures
            final(self).max_messages() == old(self).max_messages(),
            trim(message@).len() == 0 ==> {
                &&& id == 0
                &&& final(self).entries() == old(self).entries()
                &&& final(self).next_id() == old(self).next_id()
            },
            trim(message@).len() > 0 ==> {
                &&& id == old(self).next_id()
                &&& final(self).next_id() == if old(self).next_id() == u64::MAX {
                    u64::MAX
                } else {
                    (old(self).next_id() + 1) as u64
                }
                &&& exists|e: MessageEntry|
                    {
                        &&& e.id == id
                        &&& e.kind == kind
                        &&& e.message@ == trim(message@)
                        &&& final(self).entries() == keep_last(
                            #[trigger] old(self).entries().push(e),
                            old(self).max_messages() as nat,
                        )
                    }
            },
    {
        let v = chars_of(message);
        let (a, b) = trim_bounds(&v, 0, v.len());
        assert(v@.subrange(0, v@.len() as int) == v@);
        if a == b {
            return 0;
        }
        let text = string_from_range(&v, a, b);
        let id = self.next_id;
        self.next_id = self.next_id.saturating_add(1);
        let ghost before = self.messages@;
        let entry = MessageEntry { id, kind, message: text };
        let ghost e = entry;
        self.messages.push_back(entry);
        let ghost full = before.push(e);
        assert(self.messages@ == full);
        while self.messages.len() > self.max_messages
            invariant
                self.messages@ == full.skip(full.len() - self.messages@.len()),
                self.messages@.len() <= full.len(),
                self.messages@.len() == full.len() || self.messages@.len() >= self.max_messages,
                self.max_messages == old(self).max_messages,
                self.next_id == (if old(self).next_id == u64::MAX {
                    u64::MAX
                } else {
                    (old(self).next_id + 1) as u64
                }),
            decreases self.messages@.len(),
        {
            self.messages.pop_front();
            assert(self.messages@ =~= full.skip(full.len() - self.messages@.len()));
        }
        assert(self.messages@ =~= keep_last(full, self.max_messages as nat));
        assert(old(self).entries().push(e) == full);
        id
    }
}

} // verus!
