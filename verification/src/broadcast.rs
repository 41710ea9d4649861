//! The per-room broadcast channel, modelled as a bounded window of the most
//! recently published events.
//!
//! Delivery is best effort: the channel keeps the last `CHANNEL_CAPACITY`
//! events, and publishing over a full window drops the oldest event. A
//! subscriber is a cursor counting the events it has consumed; receiving
//! yields the next event the window still holds, so a slow subscriber skips
//! exactly the events that were dropped, and sees the rest in publish order.

use vstd::prelude::*;

verus! {

/// How many events a channel retains for slow subscribers.
pub const CHANNEL_CAPACITY: usize = 100;

/// A multi-subscriber event channel: the retained window and the count of
/// all events ever published on it.
pub struct Channel {
    /// The most recent events, oldest first.
    pub window: Vec<String>,
    /// How many events have been published in all.
    pub published: u64,
}

/// The index of the next event a subscriber at `cursor` receives: its own
/// position, or the oldest retained event if the window has moved past it.
pub open spec fn spec_next_index(published: int, window_len: int, cursor: int) -> int {
    if cursor < published - window_len {
        published - window_len
    } else {
        cursor
    }
}

/// What a receive on a channel in state `(window, published)` yields for a
/// subscriber at `cursor`: the event and the new cursor, or nothing when the
/// subscriber has consumed everything published so far.
pub open spec fn spec_recv(window: Seq<String>, published: int, cursor: int) -> Option<
    (String, int),
> {
    if cursor >= published {
        None
    } else {
        let i = spec_next_index(published, window.len() as int, cursor);
        Some((window[i - (published - window.len())], i + 1))
    }
}

/// The window a publish leaves behind: the event appended, after the oldest
/// is dropped if the window was full.
pub open spec fn spec_publish_window(window: Seq<String>, ev: String) -> Seq<String> {
    if window.len() == CHANNEL_CAPACITY {
        window.drop_first().push(ev)
    } else {
        window.push(ev)
    }
}

impl Channel {
    /// The window holds the last `CHANNEL_CAPACITY` events, or all of them
    /// while fewer have been published.
    pub open spec fn wf(&self) -> bool {
        self.window@.len() == if self.published >= CHANNEL_CAPACITY {
            CHANNEL_CAPACITY as int
        } else {
            self.published as int
        }
    }

    /// A fresh channel: nothing published, nothing retained.
    pub fn new() -> (c: Channel)
        ensures
            c.wf(),
            c.published == 0,
            c.window@ =~= Seq::<String>::empty(),
    {
        Channel { window: Vec::new(), published: 0 }
    }

    /// Publish one event: it is appended to the window, dropping the oldest
    /// retained event if the window was full. No subscriber is waited for.
    pub fn publish(&mut self, ev: String)
        requires
            old(self).wf(),
            old(self).published < u64::MAX,
        ensures
            final(self).wf(),
            final(self).published == old(self).published + 1,
            final(self).window@ == spec_publish_window(old(self).window@, ev),
    {
        if self.window.len() == CHANNEL_CAPACITY {
            self.window.remove(0);
            assert(self.window@ =~= old(self).window@.drop_first());
        }
        self.window.push(ev);
        self.published = self.published + 1;
    }

    /// Receive the next event for the subscriber at `*cursor`: the event at
    /// the cursor, or the oldest retained one if the cursor has been
    /// overtaken, or nothing when the subscriber is caught up. The cursor
    /// advances past the returned event.
    pub fn recv(&self, cursor: &mut u64) -> (r: Option<String>)
        requires
            self.wf(),
        ensures
            match spec_recv(self.window@, self.published as int, *old(cursor) as int) {
                Some(p) => r == Some(p.0) && *final(cursor) == p.1,
                None => r is None && *final(cursor) == *old(cursor),
            },
    {
        if *cursor >= self.published {
            return None;
        }
        let start = self.published - self.window.len() as u64;
        let i = if *cursor < start {
            start
        } else {
            *cursor
        };
        let idx = (i - start) as usize;
        let ev = self.window[idx].clone();
        *cursor = i + 1;
        Some(ev)
    }

    /// A new subscription: it observes exactly the events published after it
    /// was taken.
    pub fn subscribe(&self) -> (cursor: u64)
        ensures
            cursor == self.published,
    {
        self.published
    }
}

/// That `new_ch` is `old_ch` with exactly one event published, whose text
/// reads `ev`.
pub open spec fn spec_publish_view(old_ch: Channel, new_ch: Channel, ev: Seq<char>) -> bool {
    exists|s: String|
        s@ == ev && new_ch.published == old_ch.published + 1 && new_ch.window@
            == #[trigger] spec_publish_window(old_ch.window@, s)
}

/// What one publish leaves in the window: the new event at the end, and the
/// old window — shortened by its oldest event if it was full — before it.
pub proof fn lemma_publish_view_window(old_ch: Channel, new_ch: Channel, ev: Seq<char>)
    requires
        spec_publish_view(old_ch, new_ch, ev),
    ensures
        new_ch.published == old_ch.published + 1,
        new_ch.window@.len() >= 1,
        new_ch.window@.last()@ == ev,
        new_ch.window@.len() == if old_ch.window@.len() == CHANNEL_CAPACITY {
            CHANNEL_CAPACITY as int
        } else {
            old_ch.window@.len() + 1 as int
        },
{
    let s = choose|s: String|
        s@ == ev && new_ch.published == old_ch.published + 1 && new_ch.window@
            == #[trigger] spec_publish_window(old_ch.window@, s);
    assert(new_ch.window@.last() == s);
}

/// Law: a published event is observed. A subscriber that was caught up when
/// the event was published — any subscription taken before the publish that
/// has received everything earlier — receives exactly that event next,
/// whatever was published before it.
pub proof fn lemma_publish_then_recv(old_ch: Channel, new_ch: Channel, ev: Seq<char>)
    requires
        old_ch.wf(),
        spec_publish_view(old_ch, new_ch, ev),
    ensures
        (match spec_recv(new_ch.window@, new_ch.published as int, old_ch.published as int) {
            Some(p) => p.0@ == ev && p.1 == new_ch.published,
            None => false,
        }),
{
    lemma_publish_view_window(old_ch, new_ch, ev);
    let s = choose|s: String|
        s@ == ev && new_ch.published == old_ch.published + 1 && new_ch.window@
            == #[trigger] spec_publish_window(old_ch.window@, s);
    assert(new_ch.window@[new_ch.window@.len() - 1] == s);
}

} // verus!
