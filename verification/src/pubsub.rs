//! The registry of channels: which channels have subscribers, and how many;
//! and the bounded queue in which a subscriber's messages wait.

use vstd::prelude::*;
use bytes::Bytes;
use crate::parse::text_eq;
use crate::shim::{bytes_clone, bytes_content};

verus! {

/// Channel names with the number of subscribers attached to each. A channel
/// is entered on its first subscriber and retired with its last.
#[derive(Debug)]
pub struct Registry {
    names: Vec<String>,
    counts: Vec<u64>,
}

impl Registry {
    /// Every entry has a count, no channel is entered twice, and no entry is
    /// without a subscriber.
    pub closed spec fn wf(&self) -> bool {
        &&& self.names@.len() == self.counts@.len()
        &&& forall|i: int, j: int|
            0 <= i < j < self.names@.len() ==> self.names@[i]@ != self.names@[j]@
        &&& forall|i: int| 0 <= i < self.counts@.len() ==> self.counts@[i] > 0
    }

    /// Whether `channel` has an entry at index `i`.
    pub closed spec fn entry_at(&self, channel: Seq<char>, i: int) -> bool {
        0 <= i < self.names@.len() && self.names@[i]@ == channel
    }

    /// Whether `channel` has an entry.
    pub closed spec fn has(&self, channel: Seq<char>) -> bool {
        exists|i: int| self.entry_at(channel, i)
    }

    /// The number of subscribers attached to `channel`.
    pub closed spec fn subscribers(&self, channel: Seq<char>) -> nat {
        if self.has(channel) {
            self.counts@[choose|i: int| self.entry_at(channel, i)] as nat
        } else {
            0
        }
    }

    /// The number of channels that have an entry.
    pub closed spec fn entries(&self) -> nat {
        self.names@.len()
    }

    /// The entry at index `i` gives the count of its channel.
    proof fn lemma_at(self, i: int)
        requires
            self.wf(),
            0 <= i < self.names@.len(),
        ensures
            self.has(self.names@[i]@),
            self.subscribers(self.names@[i]@) == self.counts@[i],
    {
        let ch = self.names@[i]@;
        assert(self.entry_at(ch, i));
        let j = choose|j: int| self.entry_at(ch, j);
        assert(self.entry_at(ch, j));
        if j < i {
            assert(self.names@[j]@ != self.names@[i]@);
        } else if i < j {
            assert(self.names@[i]@ != self.names@[j]@);
        }
    }

    /// A channel that no entry names has no subscriber.
    proof fn lemma_absent(self, channel: Seq<char>)
        requires
            forall|i: int| 0 <= i < self.names@.len() ==> self.names@[i]@ != channel,
        ensures
            !self.has(channel),
            self.subscribers(channel) == 0,
    {
        assert forall|i: int| !self.entry_at(channel, i) by {}
    }

    /// A channel without an entry is named by none and has no subscriber.
    proof fn lemma_none(self, channel: Seq<char>)
        requires
            !self.has(channel),
        ensures
            forall|i: int| 0 <= i < self.names@.len() ==> self.names@[i]@ != channel,
            self.subscribers(channel) == 0,
    {
        assert forall|i: int| 0 <= i < self.names@.len() implies self.names@[i]@ != channel by {
            if self.names@[i]@ == channel {
                assert(self.entry_at(channel, i));
            }
        }
    }

    /// An index at which a channel that has an entry is entered.
    proof fn lemma_found(self, channel: Seq<char>) -> (i: int)
        requires
            self.has(channel),
        ensures
            0 <= i < self.names@.len(),
            self.names@[i]@ == channel,
    {
        let i = choose|i: int| self.entry_at(channel, i);
        assert(self.entry_at(channel, i));
        i
    }

    /// A registry without any channel.
    pub fn new() -> (r: Registry)
        ensures
            r.wf(),
            r.entries() == 0,
            forall|ch: Seq<char>| r.subscribers(ch) == 0,
    {
        let r = Registry { names: Vec::new(), counts: Vec::new() };
        assert forall|ch: Seq<char>| r.subscribers(ch) == 0 by {
            r.lemma_absent(ch);
        }
        r
    }

    /// The index of the entry of `channel`, if it has one.
    fn find(&self, channel: &str) -> (r: Option<usize>)
        requires
            self.wf(),
        ensures
            match r {
                Some(i) => i < self.names@.len() && self.names@[i as int]@ == channel@,
                None => forall|i: int| 0 <= i < self.names@.len() ==> self.names@[i]@ != channel@,
            },
    {
        let mut i: usize = 0;
        while i < self.names.len()
            invariant
                i <= self.names@.len(),
                forall|j: int| 0 <= j < i ==> self.names@[j]@ != channel@,
            decreases self.names@.len() - i,
        {
            if text_eq(self.names[i].as_str(), channel) {
                return Some(i);
            }
            i += 1;
        }
        None
    }

    /// The number of receivers that a message published on `channel`
    /// reaches: its subscribers, none where the channel has no entry.
    pub fn receivers(&self, channel: &str) -> (r: u64)
        requires
            self.wf(),
        ensures
            r == self.subscribers(channel@),
    {
        match self.find(channel) {
            Some(i) => {
                proof {
                    self.lemma_at(i as int);
                }
                self.counts[i]
            },
            None => {
                proof {
                    self.lemma_absent(channel@);
                }
                0
            },
        }
    }

    /// Attaches one more subscriber to `channel`, entering the channel where
    /// it has none yet. It is refused, and nothing changes, only where the
    /// count would not fit.
    pub fn subscribe(&mut self, channel: &str) -> (r: bool)
        requires
            old(self).wf(),
        ensures
            final(self).wf(),
            r == (old(self).subscribers(channel@) < u64::MAX),
            forall|ch: Seq<char>|
                final(self).subscribers(ch) == old(self).subscribers(ch) + (if r && ch
                    == channel@ {
                    1nat
                } else {
                    0nat
                }),
    {
        let ghost before = *self;
        match self.find(channel) {
            Some(i) => {
                proof {
                    before.lemma_at(i as int);
                }
                let c: u64 = self.counts[i];
                if c == u64::MAX {
                    return false;
                }
                self.counts.set(i, c + 1);
                proof {
                    let after = *self;
                    assert(after.wf());
                    assert forall|ch: Seq<char>|
                        after.subscribers(ch) == before.subscribers(ch) + (if ch == channel@ {
                            1nat
                        } else {
                            0nat
                        }) by {
                        if before.has(ch) {
                            let j = before.lemma_found(ch);
                            before.lemma_at(j);
                            after.lemma_at(j);
                        } else {
                            before.lemma_none(ch);
                            after.lemma_absent(ch);
                        }
                    }
                }
                true
            },
            None => {
                self.names.push(channel.to_owned());
                self.counts.push(1);
                proof {
                    let after = *self;
                    let n = before.names@.len() as int;
                    assert(after.wf());
                    assert forall|ch: Seq<char>|
                        after.subscribers(ch) == before.subscribers(ch) + (if ch == channel@ {
                            1nat
                        } else {
                            0nat
                        }) by {
                        if ch == channel@ {
                            before.lemma_absent(ch);
                            after.lemma_at(n);
                        } else if before.has(ch) {
                            let j = before.lemma_found(ch);
                            before.lemma_at(j);
                            after.lemma_at(j);
                        } else {
                            before.lemma_none(ch);
                            after.lemma_absent(ch);
                        }
                    }
                }
                true
            },
        }
    }

    /// Detaches one subscriber from `channel`, retiring the channel with its
    /// last. Where the channel has no subscriber, nothing changes and the
    /// answer is `false`.
    pub fn unsubscribe(&mut self, channel: &str) -> (r: bool)
        requires
            old(self).wf(),
        ensures
            final(self).wf(),
            r == (old(self).subscribers(channel@) > 0),
            forall|ch: Seq<char>|
                final(self).subscribers(ch) == old(self).subscribers(ch) - (if r && ch
                    == channel@ {
                    1nat
                } else {
                    0nat
                }),
            final(self).entries() <= old(self).entries(),
    {
        let ghost before = *self;
        match self.find(channel) {
            Some(i) => {
                proof {
                    before.lemma_at(i as int);
                }
                let c: u64 = self.counts[i];
                if c > 1 {
                    self.counts.set(i, c - 1);
                    proof {
                        let after = *self;
                        assert(after.wf());
                        assert forall|ch: Seq<char>|
                            after.subscribers(ch) == before.subscribers(ch) - (if ch == channel@ {
                                1nat
                            } else {
                                0nat
                            }) by {
                            if before.has(ch) {
                                let j = before.lemma_found(ch);
                                before.lemma_at(j);
                                after.lemma_at(j);
                            } else {
                                before.lemma_none(ch);
                                after.lemma_absent(ch);
                            }
                        }
                    }
                } else {
                    self.names.remove(i);
                    self.counts.remove(i);
                    proof {
                        let after = *self;
                        assert(after.wf());
                        assert forall|ch: Seq<char>|
                            after.subscribers(ch) == before.subscribers(ch) - (if ch == channel@ {
                                1nat
                            } else {
                                0nat
                            }) by {
                            if ch == channel@ {
                                after.lemma_absent(ch);
                            } else if before.has(ch) {
                                let j = before.lemma_found(ch);
                                before.lemma_at(j);
                                if j < i {
                                    after.lemma_at(j);
                                } else {
                                    after.lemma_at(j - 1);
                                }
                            } else {
                                before.lemma_none(ch);
                                after.lemma_absent(ch);
                            }
                        }
                    }
                }
                true
            },
            None => {
                proof {
                    before.lemma_absent(channel@);
                }
                false
            },
        }
    }
}

/// The messages that wait for one subscriber, oldest first. The queue is
/// bounded: a message that finds it full pushes the oldest one out, so that
/// a slow subscriber never holds a publisher back.
#[derive(Debug)]
pub struct Mailbox {
    queue: Vec<Bytes>,
    capacity: usize,
}

impl View for Mailbox {
    type V = Seq<Seq<u8>>;

    closed spec fn view(&self) -> Seq<Seq<u8>> {
        Seq::new(self.queue@.len(), |i: int| bytes_content(self.queue@[i]))
    }
}

impl Mailbox {
    /// The number of messages that can wait.
    pub closed spec fn capacity(&self) -> nat {
        self.capacity as nat
    }

    /// The queue has room for at least one message and holds no more than
    /// it has room for.
    pub closed spec fn wf(&self) -> bool {
        0 < self.capacity && self.queue@.len() <= self.capacity
    }

    /// An empty queue with room for `capacity` messages.
    pub fn new(capacity: usize) -> (r: Mailbox)
        requires
            capacity > 0,
        ensures
            r.wf(),
            r.capacity() == capacity,
            r@ == Seq::<Seq<u8>>::empty(),
    {
        let r = Mailbox { queue: Vec::new(), capacity };
        assert(r@ =~= Seq::<Seq<u8>>::empty());
        r
    }

    /// The number of messages that wait.
    pub fn len(&self) -> (r: usize)
        ensures
            r == self@.len(),
    {
        self.queue.len()
    }

    /// Puts `message` behind those that wait. Where the queue is full the
    /// oldest message is dropped for it, and the answer says so.
    pub fn deliver(&mut self, message: Bytes) -> (dropped: bool)
        requires
            old(self).wf(),
        ensures
            final(self).wf(),
            final(self).capacity() == old(self).capacity(),
            dropped == (old(self)@.len() == old(self).capacity()),
            final(self)@ == (if dropped {
                old(self)@.drop_first()
            } else {
                old(self)@
            }).push(bytes_content(message)),
    {
        let dropped = self.queue.len() == self.capacity;
        if dropped {
            self.queue.remove(0);
        }
        self.queue.push(message);
        assert(self@ =~= (if dropped {
            old(self)@.drop_first()
        } else {
            old(self)@
        }).push(bytes_content(message)));
        dropped
    }

    /// Takes the oldest message that waits, if any.
    pub fn take(&mut self) -> (r: Option<Bytes>)
        requires
            old(self).wf(),
        ensures
            final(self).wf(),
            final(self).capacity() == old(self).capacity(),
            match r {
                Some(b) => old(self)@.len() > 0 && bytes_content(b) == old(self)@[0] && final(self)@
                    == old(self)@.drop_first(),
                None => old(self)@.len() == 0 && final(self)@ == old(self)@,
            },
    {
        if self.queue.len() == 0 {
            None
        } else {
            let b = self.queue.remove(0);
            assert(self@ =~= old(self)@.drop_first());
            Some(b)
        }
    }
}

/// What waits in a queue with room for `capacity` messages after `message`
/// was delivered to it: the message stands last, and where the queue was
/// full its oldest message has made room.
pub open spec fn delivered(waiting: Seq<Seq<u8>>, capacity: nat, message: Seq<u8>) -> Seq<
    Seq<u8>,
> {
    (if waiting.len() == capacity {
        waiting.drop_first()
    } else {
        waiting
    }).push(message)
}

/// Two messages delivered one after the other wait in that order, the
/// second last and the first just before it, whatever waited before and
/// whether or not the queue was full.
pub proof fn delivered_in_order(
    waiting: Seq<Seq<u8>>,
    capacity: nat,
    first: Seq<u8>,
    second: Seq<u8>,
)
    requires
        capacity >= 2,
        waiting.len() <= capacity,
    ensures
        ({
            let q = delivered(delivered(waiting, capacity, first), capacity, second);
            &&& 2 <= q.len() <= capacity
            &&& q[q.len() - 2] == first
            &&& q[q.len() - 1] == second
        }),
        waiting.len() + 2 <= capacity ==> delivered(
            delivered(waiting, capacity, first),
            capacity,
            second,
        ) == waiting.push(first).push(second),
{
}

/// One receiver: the channel it listens on and the messages that wait for
/// it.
#[derive(Debug)]
pub struct Subscriber {
    channel: String,
    mailbox: Mailbox,
}

impl Subscriber {
    /// The channel that the receiver listens on.
    pub closed spec fn channel(&self) -> Seq<char> {
        self.channel@
    }

    /// The messages that wait for the receiver, oldest first.
    pub closed spec fn waiting(&self) -> Seq<Seq<u8>> {
        self.mailbox@
    }

    /// The number of messages that can wait.
    pub closed spec fn capacity(&self) -> nat {
        self.mailbox.capacity()
    }

    /// The receiver's queue is in order.
    pub closed spec fn wf(&self) -> bool {
        self.mailbox.wf()
    }

    /// A receiver on `channel` for which up to `capacity` messages can
    /// wait, and none does yet.
    pub fn new(channel: &str, capacity: usize) -> (r: Subscriber)
        requires
            capacity > 0,
        ensures
            r.wf(),
            r.channel() == channel@,
            r.capacity() == capacity,
            r.waiting() == Seq::<Seq<u8>>::empty(),
    {
        Subscriber { channel: channel.to_owned(), mailbox: Mailbox::new(capacity) }
    }

    /// Whether the receiver listens on `channel`.
    pub fn listens_on(&self, channel: &str) -> (r: bool)
        ensures
            r == (self.channel() == channel@),
    {
        text_eq(self.channel.as_str(), channel)
    }

    /// Puts `message` behind those that wait for the receiver.
    pub fn deliver(&mut self, message: Bytes)
        requires
            old(self).wf(),
        ensures
            final(self).wf(),
            final(self).channel() == old(self).channel(),
            final(self).capacity() == old(self).capacity(),
            final(self).waiting() == delivered(
                old(self).waiting(),
                old(self).capacity(),
                bytes_content(message),
            ),
    {
        self.mailbox.deliver(message);
    }

    /// Takes the oldest message that waits for the receiver, if any.
    pub fn take(&mut self) -> (r: Option<Bytes>)
        requires
            old(self).wf(),
        ensures
            final(self).wf(),
            final(self).channel() == old(self).channel(),
            final(self).capacity() == old(self).capacity(),
            match r {
                Some(b) => old(self).waiting().len() > 0 && bytes_content(b) == old(
                    self,
                ).waiting()[0] && final(self).waiting() == old(self).waiting().drop_first(),
                None => old(self).waiting().len() == 0 && final(self).waiting() == old(
                    self,
                ).waiting(),
            },
    {
        self.mailbox.take()
    }
}

/// How many of the first `n` receivers listen on `channel`.
pub open spec fn listeners(subscribers: Seq<Subscriber>, channel: Seq<char>, n: nat) -> nat
    decreases n,
{
    if n == 0 || n > subscribers.len() {
        0
    } else {
        listeners(subscribers, channel, (n - 1) as nat) + (if subscribers[n - 1].channel()
            == channel {
            1nat
        } else {
            0nat
        })
    }
}

/// Whether `after` is the receiver `before` once a message on `channel` was
/// published: a receiver on that channel has the message behind all that
/// waited, every other receiver is as it was.
pub open spec fn reached(
    before: Subscriber,
    after: Subscriber,
    channel: Seq<char>,
    message: Seq<u8>,
) -> bool {
    &&& after.wf()
    &&& after.channel() == before.channel()
    &&& after.capacity() == before.capacity()
    &&& after.waiting() == (if before.channel() == channel {
        delivered(before.waiting(), before.capacity(), message)
    } else {
        before.waiting()
    })
}

/// Publishes `message` on `channel`: every receiver that listens on the
/// channel gets it once, behind all that waits for it, and no other
/// receiver changes. The answer is the number of receivers reached.
pub fn fan_out(subscribers: &mut Vec<Subscriber>, channel: &str, message: &Bytes) -> (count: usize)
    requires
        forall|i: int| 0 <= i < old(subscribers)@.len() ==> (#[trigger] old(subscribers)@[i]).wf(),
    ensures
        final(subscribers)@.len() == old(subscribers)@.len(),
        forall|i: int|
            0 <= i < old(subscribers)@.len() ==> reached(
                old(subscribers)@[i],
                #[trigger] final(subscribers)@[i],
                channel@,
                bytes_content(*message),
            ),
        count == listeners(old(subscribers)@, channel@, old(subscribers)@.len()),
{
    let mut count: usize = 0;
    let mut k: usize = 0;
    while k < subscribers.len()
        invariant
            k <= subscribers@.len(),
            subscribers@.len() == old(subscribers)@.len(),
            count <= k,
            forall|i: int|
                0 <= i < old(subscribers)@.len() ==> (#[trigger] old(subscribers)@[i]).wf(),
            count == listeners(old(subscribers)@, channel@, k as nat),
            forall|i: int|
                0 <= i < k ==> reached(
                    old(subscribers)@[i],
                    #[trigger] subscribers@[i],
                    channel@,
                    bytes_content(*message),
                ),
            forall|i: int|
                k <= i < subscribers@.len() ==> #[trigger] subscribers@[i] == old(subscribers)@[i],
        decreases subscribers@.len() - k,
    {
        assert(subscribers@[k as int] == old(subscribers)@[k as int]);
        if subscribers[k].listens_on(channel) {
            subscribers[k].deliver(bytes_clone(message));
            count += 1;
        }
        k += 1;
    }
    count
}

/// The channels that one connection is subscribed to, in the order in which
/// it subscribed. Every change here is made in the registry too, so that the
/// registry's counts stay right.
#[derive(Debug)]
pub struct Subscriptions {
    channels: Vec<String>,
}

impl View for Subscriptions {
    type V = Seq<Seq<char>>;

    closed spec fn view(&self) -> Seq<Seq<char>> {
        Seq::new(self.channels@.len(), |i: int| self.channels@[i]@)
    }
}

/// One less, but never less than none.
pub open spec fn one_less(n: nat) -> nat {
    if n > 0 {
        (n - 1) as nat
    } else {
        0
    }
}

impl Subscriptions {
    /// No channel is held twice.
    pub closed spec fn wf(&self) -> bool {
        forall|i: int, j: int|
            0 <= i < j < self.channels@.len() ==> self.channels@[i]@ != self.channels@[j]@
    }

    /// A connection that is subscribed to nothing.
    pub fn new() -> (r: Subscriptions)
        ensures
            r.wf(),
            r@ == Seq::<Seq<char>>::empty(),
    {
        let r = Subscriptions { channels: Vec::new() };
        assert(r@ =~= Seq::<Seq<char>>::empty());
        r
    }

    /// Whether the connection is subscribed to nothing, which ends its time
    /// as a subscriber.
    pub fn is_empty(&self) -> (r: bool)
        ensures
            r == (self@.len() == 0),
    {
        self.channels.len() == 0
    }

    /// The index at which `channel` is held, if it is.
    fn position(&self, channel: &str) -> (r: Option<usize>)
        ensures
            match r {
                Some(i) => i < self@.len() && self@[i as int] == channel@,
                None => !self@.contains(channel@),
            },
    {
        let mut i: usize = 0;
        while i < self.channels.len()
            invariant
                i <= self.channels@.len(),
                forall|j: int| 0 <= j < i ==> self@[j] != channel@,
            decreases self.channels@.len() - i,
        {
            if text_eq(self.channels[i].as_str(), channel) {
                return Some(i);
            }
            i += 1;
        }
        None
    }

    /// Subscribes the connection to `channel`. Nothing changes, and the
    /// answer is `false`, where it is subscribed already or the registry has
    /// no room for one more.
    pub fn subscribe(&mut self, channel: &str, registry: &mut Registry) -> (r: bool)
        requires
            old(self).wf(),
            old(registry).wf(),
        ensures
            final(self).wf(),
            final(registry).wf(),
            r == (!old(self)@.contains(channel@) && old(registry).subscribers(channel@)
                < u64::MAX),
            final(self)@ == (if r {
                old(self)@.push(channel@)
            } else {
                old(self)@
            }),
            forall|ch: Seq<char>|
                final(registry).subscribers(ch) == old(registry).subscribers(ch) + (if r && ch
                    == channel@ {
                    1nat
                } else {
                    0nat
                }),
    {
        match self.position(channel) {
            Some(_) => false,
            None => {
                if registry.subscribe(channel) {
                    self.channels.push(channel.to_owned());
                    assert(self@ =~= old(self)@.push(channel@));
                    assert forall|i: int, j: int| 0 <= i < j < self.channels@.len() implies self.channels@[i]@
                        != self.channels@[j]@ by {
                        if j == self.channels@.len() - 1 {
                            assert(old(self)@[i] == self.channels@[i]@);
                        }
                    }
                    true
                } else {
                    false
                }
            },
        }
    }

    /// Ends the connection's subscription to `channel`. Nothing changes, and
    /// the answer is `false`, where it has none.
    pub fn unsubscribe(&mut self, channel: &str, registry: &mut Registry) -> (r: bool)
        requires
            old(self).wf(),
            old(registry).wf(),
        ensures
            final(self).wf(),
            final(registry).wf(),
            r == old(self)@.contains(channel@),
            r ==> exists|i: int|
                0 <= i < old(self)@.len() && old(self)@[i] == channel@
                    && final(self)@ == old(self)@.remove(i),
            !r ==> final(self)@ == old(self)@,
            forall|ch: Seq<char>|
                final(registry).subscribers(ch) == (if r && ch == channel@ {
                    one_less(old(registry).subscribers(ch))
                } else {
                    old(registry).subscribers(ch)
                }),
    {
        match self.position(channel) {
            Some(i) => {
                self.channels.remove(i);
                registry.unsubscribe(channel);
                assert(self@ =~= old(self)@.remove(i as int));
                true
            },
            None => false,
        }
    }

    /// Ends every subscription of the connection, as when it closes, and
    /// hands back the channels it had, the latest first.
    pub fn unsubscribe_all(&mut self, registry: &mut Registry) -> (r: Vec<String>)
        requires
            old(self).wf(),
            old(registry).wf(),
        ensures
            final(self).wf(),
            final(registry).wf(),
            final(self)@.len() == 0,
            r@.len() == old(self)@.len(),
            forall|i: int| 0 <= i < r@.len() ==> (#[trigger] r@[i])@ == old(self)@[r@.len() - 1 - i],
            forall|ch: Seq<char>|
                final(registry).subscribers(ch) == (if old(self)@.contains(ch) {
                    one_less(old(registry).subscribers(ch))
                } else {
                    old(registry).subscribers(ch)
                }),
    {
        let mut out: Vec<String> = Vec::new();
        let ghost n = self.channels@.len() as int;
        while self.channels.len() > 0
            invariant
                self.wf(),
                registry.wf(),
                old(self).wf(),
                n == old(self)@.len(),
                self.channels@.len() + out@.len() == n,
                forall|i: int| 0 <= i < self.channels@.len() ==> self@[i] == old(self)@[i],
                forall|i: int| 0 <= i < out@.len() ==> (#[trigger] out@[i])@ == old(self)@[n - 1 - i],
                forall|ch: Seq<char>|
                    registry.subscribers(ch) == (if exists|i: int|
                        self.channels@.len() <= i < n && old(self)@[i] == ch {
                        one_less(old(registry).subscribers(ch))
                    } else {
                        old(registry).subscribers(ch)
                    }),
            decreases self.channels@.len(),
        {
            let ghost before = *registry;
            let ghost k = self.channels@.len() - 1;
            let name = self.channels.pop().unwrap();
            registry.unsubscribe(name.as_str());
            assert(name@ == old(self)@[k]);
            assert forall|ch: Seq<char>|
                registry.subscribers(ch) == (if exists|i: int|
                    k <= i < n && old(self)@[i] == ch {
                    one_less(old(registry).subscribers(ch))
                } else {
                    old(registry).subscribers(ch)
                }) by {
                if ch == name@ {
                    assert(k <= k < n && old(self)@[k] == ch);
                    assert forall|i: int| k + 1 <= i < n implies old(self)@[i] != ch by {
                        assert(old(self).channels@[k]@ != old(self).channels@[i]@);
                    }
                } else {
                    if exists|i: int| k + 1 <= i < n && old(self)@[i] == ch {
                        let i = choose|i: int| k + 1 <= i < n && old(self)@[i] == ch;
                        assert(k <= i < n && old(self)@[i] == ch);
                    }
                }
            }
            out.push(name);
        }
        assert forall|ch: Seq<char>|
            old(self)@.contains(ch) <==> (exists|i: int| 0 <= i < n && old(self)@[i] == ch) by {
            if old(self)@.contains(ch) {
                let i = choose|i: int| 0 <= i < old(self)@.len() && old(self)@[i] == ch;
                assert(0 <= i < n && old(self)@[i] == ch);
            }
        }
        out
    }
}

} // verus!
