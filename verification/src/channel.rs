//! Publish channel: a multi-consumer fan-out of variable records with
//! bounded capacity. Each subscriber keeps its own read cursor; a slow
//! subscriber that falls behind the retained window is deliberately starved
//! of the oldest unread records — it lags and skips — rather than blocking
//! the publisher. A subscriber attached after a publish does not see past
//! records.

use vstd::prelude::*;
use crate::record::{EntryModel, VariableRecord, record_views};

verus! {

/// Mathematical state of the fan-out channel: its capacity bound, how many
/// records were ever published, and the retained window of the most recent
/// ones.
pub struct ChannelModel {
    pub capacity: nat,
    pub published: nat,
    pub recent: Seq<Seq<EntryModel>>,
}

impl ChannelModel {
    /// The capacity bound is positive and the retained window holds the
    /// most recent records: as many as were published, up to the capacity.
    pub open spec fn wf(&self) -> bool {
        &&& self.capacity >= 1
        &&& self.recent.len() == (if self.published < self.capacity {
            self.published
        } else {
            self.capacity
        })
    }

    /// Sequence number of the oldest record still retained.
    pub open spec fn oldest_retained(&self) -> nat {
        (self.published - self.recent.len()) as nat
    }
}

/// Publishing appends the record to the retained window, evicting the
/// oldest record once the window is full, and bumps the publish count.
pub open spec fn publish_model(m: ChannelModel, r: Seq<EntryModel>) -> ChannelModel {
    ChannelModel {
        capacity: m.capacity,
        published: m.published + 1,
        recent: if m.recent.len() < m.capacity {
            m.recent.push(r)
        } else {
            m.recent.drop_first().push(r)
        },
    }
}

/// What a subscriber with read cursor `cursor` receives next, and its new
/// cursor: nothing when it has seen every published record; otherwise the
/// record at its cursor — skipped forward past any records it lost by
/// lagging behind the retained window.
pub open spec fn recv_model(m: ChannelModel, cursor: nat) -> (Option<Seq<EntryModel>>, nat) {
    if cursor >= m.published {
        (None::<Seq<EntryModel>>, cursor)
    } else {
        let c = if cursor >= m.oldest_retained() {
            cursor
        } else {
            m.oldest_retained()
        };
        (Some(m.recent[c - m.oldest_retained()]), c + 1)
    }
}

/// A bounded fan-out channel of variable records.
pub struct PublishChannel {
    capacity: usize,
    published: usize,
    buffer: Vec<VariableRecord>,
}

impl View for PublishChannel {
    type V = ChannelModel;

    closed spec fn view(&self) -> ChannelModel {
        ChannelModel {
            capacity: self.capacity as nat,
            published: self.published as nat,
            recent: record_views(self.buffer@),
        }
    }
}

/// One consumer's read cursor into a publish channel: the sequence number
/// of the next record it will receive.
pub struct Subscriber {
    cursor: usize,
}

impl View for Subscriber {
    type V = nat;

    closed spec fn view(&self) -> nat {
        self.cursor as nat
    }
}

impl PublishChannel {
    /// The channel's model is well formed.
    pub open spec fn wf(&self) -> bool {
        self@.wf()
    }

    /// A fresh channel with the given capacity bound and nothing published.
    pub fn new(capacity: usize) -> (r: PublishChannel)
        requires
            capacity >= 1,
        ensures
            r.wf(),
            r@.capacity == capacity,
            r@.published == 0,
            r@.recent == Seq::<Seq<EntryModel>>::empty(),
    {
        let r = PublishChannel { capacity, published: 0, buffer: Vec::new() };
        proof {
            assert(r@.recent =~= Seq::<Seq<EntryModel>>::empty());
        }
        r
    }

    /// Publish one record to every current and future subscriber within the
    /// retained window; the oldest retained record is evicted once the
    /// window is full, and a slow subscriber will miss it.
    pub fn publish(&mut self, rec: VariableRecord)
        requires
            old(self).wf(),
            old(self)@.published < usize::MAX,
        ensures
            final(self).wf(),
            final(self)@ == publish_model(old(self)@, rec@),
    {
        if self.buffer.len() == self.capacity {
            self.buffer.remove(0);
            proof {
                assert(old(self).buffer@.remove(0) =~= old(self).buffer@.drop_first());
            }
        }
        self.buffer.push(rec);
        self.published = self.published + 1;
        proof {
            if old(self)@.recent.len() < old(self)@.capacity {
                assert(record_views(self.buffer@) =~= record_views(old(self).buffer@).push(rec@));
            } else {
                assert(record_views(self.buffer@) =~= record_views(
                    old(self).buffer@,
                ).drop_first().push(rec@));
            }
            assert(final(self)@ == publish_model(old(self)@, rec@));
        }
    }

    /// Attach a new subscriber; its cursor starts at the current publish
    /// count, so it receives no record published before it attached.
    pub fn subscribe(&self) -> (s: Subscriber)
        ensures
            s@ == self@.published,
    {
        Subscriber { cursor: self.published }
    }

    /// Hand the subscriber its next record, or nothing when it has seen
    /// every published record. A subscriber that lagged behind the retained
    /// window is skipped forward to the oldest retained record.
    pub fn recv(&self, sub: &mut Subscriber) -> (r: Option<VariableRecord>)
        requires
            self.wf(),
        ensures
            final(sub)@ == recv_model(self@, old(sub)@).1,
            match r {
                Some(rec) => recv_model(self@, old(sub)@).0 == Some(rec@),
                None => recv_model(self@, old(sub)@).0 is None,
            },
    {
        if sub.cursor >= self.published {
            None
        } else {
            let oldest = self.published - self.buffer.len();
            let c = if sub.cursor >= oldest {
                sub.cursor
            } else {
                oldest
            };
            let rec = self.buffer[c - oldest].clone();
            sub.cursor = c + 1;
            Some(rec)
        }
    }
}

/// Fan-out law: when a record is published, two subscribers that attached
/// beforehand — their cursors at the publish count — both receive exactly
/// that record next, while a subscriber attached after the publish receives
/// nothing, past records included.
pub proof fn lemma_fanout_delivery(m: ChannelModel, r: Seq<EntryModel>, a: nat, b: nat)
    requires
        m.wf(),
        a == m.published,
        b == m.published,
    ensures
        publish_model(m, r).wf(),
        recv_model(publish_model(m, r), a).0 == Some(r),
        recv_model(publish_model(m, r), a).1 == a + 1,
        recv_model(publish_model(m, r), b).0 == Some(r),
        recv_model(publish_model(m, r), b).1 == b + 1,
        recv_model(publish_model(m, r), publish_model(m, r).published).0 is None,
{
    let m1 = publish_model(m, r);
    assert(m1.recent.len() >= 1);
    assert(m1.recent.last() == r);
    assert(a >= m1.oldest_retained());
}

} // verus!
