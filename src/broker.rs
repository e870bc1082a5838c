use vstd::prelude::*;

verus! {

/// The messages on `topic` among `msgs`, in publication order.
pub open spec fn messages_for<T>(msgs: Seq<(u64, T)>, topic: u64) -> Seq<T>
    decreases msgs.len(),
{
    if msgs.len() == 0 {
        Seq::empty()
    } else {
        let prev = messages_for(msgs.drop_last(), topic);
        if msgs.last().0 == topic {
            prev.push(msgs.last().1)
        } else {
            prev
        }
    }
}

/// The texts of a sequence of strings.
pub open spec fn texts(v: Seq<String>) -> Seq<Seq<char>> {
    v.map_values(|s: String| s@)
}

/// A publish/subscribe fan-out of messages tagged with a topic (a service's identity):
/// every subscriber reads, at its own cursor, the messages of its topic that were
/// published after it subscribed. Publishing never waits on a subscriber.
pub struct Broker<T> {
    published: Vec<(u64, T)>,
    topics: Vec<u64>,
    cursors: Vec<usize>,
}

impl<T: Clone> Broker<T> {
    /// Everything published so far, with its topic.
    pub closed spec fn published(&self) -> Seq<(u64, T)> {
        self.published@
    }

    /// The number of subscriptions handed out.
    pub closed spec fn subscriber_count(&self) -> nat {
        self.topics@.len()
    }

    /// The topic that subscriber `s` follows.
    pub closed spec fn topic(&self, s: int) -> u64 {
        self.topics@[s]
    }

    /// The messages that subscriber `s` has not read yet, in publication order.
    pub closed spec fn pending(&self, s: int) -> Seq<T> {
        messages_for(self.published@.subrange(self.cursors@[s] as int, self.published@.len() as int), self.topics@[s])
    }

    /// One topic per cursor, and no cursor past the end of what was published.
    pub closed spec fn wf(&self) -> bool {
        &&& self.topics@.len() == self.cursors@.len()
        &&& forall|s: int| 0 <= s < self.cursors@.len() ==> #[trigger] self.cursors@[s] <= self.published@.len()
    }

    /// A broker with nothing published and no subscribers.
    pub fn new() -> (r: Broker<T>)
        ensures
            r.wf(),
            r.subscriber_count() == 0,
            r.published().len() == 0,
    {
        Broker { published: Vec::new(), topics: Vec::new(), cursors: Vec::new() }
    }

    /// Opens a subscription to `topic`; it sees only messages published from now on.
    pub fn subscribe(&mut self, topic: u64) -> (r: usize)
        requires
            old(self).wf(),
            old(self).subscriber_count() < usize::MAX,
        ensures
            final(self).wf(),
            r == old(self).subscriber_count(),
            final(self).subscriber_count() == old(self).subscriber_count() + 1,
            final(self).published() == old(self).published(),
            final(self).topic(r as int) == topic,
            final(self).pending(r as int) == Seq::<T>::empty(),
            forall|s: int| 0 <= s < old(self).subscriber_count() ==> #[trigger] final(self).pending(s) == old(self).pending(s)
                && final(self).topic(s) == old(self).topic(s),
    {
        let r = self.topics.len();
        let ghost old_self = *self;
        self.topics.push(topic);
        self.cursors.push(self.published.len());
        proof {
            let p = self.published@;
            assert(p.subrange(p.len() as int, p.len() as int) =~= Seq::empty());
            assert(forall|s: int| 0 <= s < old_self.subscriber_count() ==> self.cursors@[s] == old_self.cursors@[s] && self.topics@[s] == old_self.topics@[s]);
        }
        r
    }

    /// Publishes a message on `topic` to every subscriber of that topic.
    pub fn publish(&mut self, topic: u64, msg: T)
        requires
            old(self).wf(),
        ensures
            final(self).wf(),
            final(self).subscriber_count() == old(self).subscriber_count(),
            final(self).published() == old(self).published().push((topic, msg)),
            forall|s: int| 0 <= s < old(self).subscriber_count() ==> #[trigger] final(self).topic(s) == old(self).topic(s),
            forall|s: int| 0 <= s < old(self).subscriber_count() ==> #[trigger] final(self).pending(s) == if old(self).topic(s) == topic {
                old(self).pending(s).push(msg)
            } else {
                old(self).pending(s)
            },
    {
        let ghost old_p = self.published@;
        let ghost m = msg;
        self.published.push((topic, msg));
        proof {
            let p = self.published@;
            assert forall|s: int| 0 <= s < self.subscriber_count() implies #[trigger] self.cursors@[s] <= self.published@.len() by {}
            assert forall|s: int| 0 <= s < self.subscriber_count() implies (#[trigger] self.pending(s)) == (if self.topic(s) == topic {
                messages_for(old_p.subrange(self.cursors@[s] as int, old_p.len() as int), self.topics@[s]).push(m)
            } else {
                messages_for(old_p.subrange(self.cursors@[s] as int, old_p.len() as int), self.topics@[s])
            }) by {
                let sub = p.subrange(self.cursors@[s] as int, p.len() as int);
                assert(sub.drop_last() =~= old_p.subrange(self.cursors@[s] as int, old_p.len() as int));
                assert(sub.last() == (topic, m));
            }
        }
    }

    /// Takes copies of the unread messages of subscriber `s`, in publication order.
    pub fn poll(&mut self, s: usize) -> (r: Vec<T>)
        requires
            old(self).wf(),
            s < old(self).subscriber_count(),
        ensures
            final(self).wf(),
            r@.len() == old(self).pending(s as int).len(),
            forall|i: int| 0 <= i < r@.len() ==> cloned::<T>(old(self).pending(s as int)[i], #[trigger] r@[i]),
            final(self).subscriber_count() == old(self).subscriber_count(),
            final(self).published() == old(self).published(),
            final(self).pending(s as int) == Seq::<T>::empty(),
            forall|u: int| 0 <= u < old(self).subscriber_count() ==> #[trigger] final(self).topic(u) == old(self).topic(u),
            forall|u: int| 0 <= u < old(self).subscriber_count() && u != s ==> #[trigger] final(self).pending(u) == old(self).pending(u),
    {
        let ghost p = self.published@;
        let topic = self.topics[s];
        let start = self.cursors[s];
        let mut r: Vec<T> = Vec::new();
        let mut i: usize = start;
        while i < self.published.len()
            invariant
                self.wf(),
                p == self.published@,
                s < self.subscriber_count(),
                topic == self.topics@[s as int],
                start == self.cursors@[s as int],
                start <= i <= self.published.len(),
                r@.len() == messages_for(p.subrange(start as int, i as int), topic).len(),
                forall|j: int| 0 <= j < r@.len() ==> cloned::<T>(messages_for(p.subrange(start as int, i as int), topic)[j], #[trigger] r@[j]),
            decreases self.published.len() - i,
        {
            let entry = &self.published[i];
            let ghost prev = r@;
            let sub = Ghost(p.subrange(start as int, i + 1));
            proof {
                assert(sub@.drop_last() =~= p.subrange(start as int, i as int));
                assert(sub@.last() == p[i as int]);
            }
            if entry.0 == topic {
                let c = entry.1.clone();
                r.push(c);
                proof {
                    assert forall|j: int| 0 <= j < r@.len() implies cloned::<T>(messages_for(sub@, topic)[j], #[trigger] r@[j]) by {
                        if j < prev.len() {
                            assert(r@[j] == prev[j]);
                        }
                    }
                }
            }
            i = i + 1;
        }
        let ghost old_self = *self;
        self.cursors.set(s, self.published.len());
        proof {
            assert(p.subrange(p.len() as int, p.len() as int) =~= Seq::empty());
            assert(forall|u: int| 0 <= u < old_self.subscriber_count() && u != s ==> self.cursors@[u] == old_self.cursors@[u]);
        }
        r
    }
}

/// The messages a subscriber reads from two stretches of publication are those of the
/// first stretch followed by those of the second: delivery keeps publication order.
pub proof fn messages_keep_append_order<T>(a: Seq<(u64, T)>, b: Seq<(u64, T)>, topic: u64)
    ensures
        messages_for(a + b, topic) == messages_for(a, topic) + messages_for(b, topic),
    decreases b.len(),
{
    if b.len() == 0 {
        assert(a + b =~= a);
        assert(messages_for(a, topic) + messages_for(b, topic) =~= messages_for(a, topic));
    } else {
        messages_keep_append_order(a, b.drop_last(), topic);
        assert((a + b).drop_last() =~= a + b.drop_last());
        assert((a + b).last() == b.last());
        if b.last().0 == topic {
            assert(messages_for(a, topic) + messages_for(b, topic) =~= (messages_for(a, topic) + messages_for(b.drop_last(), topic)).push(b.last().1));
        }
    }
}

/// Messages published on other topics never reach a subscriber of `topic`.
pub proof fn no_cross_talk<T>(msgs: Seq<(u64, T)>, topic: u64)
    requires
        forall|i: int| 0 <= i < msgs.len() ==> (#[trigger] msgs[i]).0 != topic,
    ensures
        messages_for(msgs, topic) == Seq::<T>::empty(),
    decreases msgs.len(),
{
    if msgs.len() > 0 {
        no_cross_talk(msgs.drop_last(), topic);
        assert(msgs.last() == msgs[msgs.len() - 1]);
    }
}

} // verus!
