//! Process-local publish/subscribe relay for inbound frames.
//!
//! One publisher — the driver of the transport's receive loop — broadcasts
//! each raw inbound payload to every subscription that is live at publish
//! time.  A subscription created after a publish never sees that payload,
//! and dropping one subscription affects neither the publisher nor the
//! other subscriptions.

use vstd::prelude::*;

verus! {

/// The abstract state of one subscription: whether it is still live, and
/// the payloads published to it that have not been read yet, oldest first.
#[verifier::ext_equal]
pub struct SubscriptionView {
    pub live: bool,
    pub pending: Seq<Seq<char>>,
}

struct Subscriber {
    live: bool,
    pending: Vec<String>,
}

impl View for Subscriber {
    type V = SubscriptionView;

    closed spec fn view(&self) -> SubscriptionView {
        SubscriptionView { live: self.live, pending: self.pending.deep_view() }
    }
}

impl DeepView for Subscriber {
    type V = SubscriptionView;

    closed spec fn deep_view(&self) -> SubscriptionView {
        self.view()
    }
}

/// The relay.  Its abstract state is the sequence of subscriptions ever
/// created, in creation order; a subscription is addressed by its index.
pub struct EventBus {
    subs: Vec<Subscriber>,
}

impl View for EventBus {
    type V = Seq<SubscriptionView>;

    closed spec fn view(&self) -> Seq<SubscriptionView> {
        self.subs.deep_view()
    }
}

impl EventBus {
    /// A fresh bus with no subscriptions.
    pub fn new() -> (b: EventBus)
        ensures
            b@ == Seq::<SubscriptionView>::empty(),
    {
        let b = EventBus { subs: Vec::new() };
        assert(b@ =~~= Seq::<SubscriptionView>::empty());
        b
    }

    /// How many subscriptions were ever created.
    pub fn len(&self) -> (n: usize)
        ensures
            n == self@.len(),
    {
        self.subs.len()
    }

    /// Create a live subscription with nothing pending; its handle is its
    /// index.  Existing subscriptions are untouched.
    pub fn subscribe(&mut self) -> (id: usize)
        ensures
            id == old(self)@.len(),
            final(self)@ == old(self)@.push(
                SubscriptionView { live: true, pending: Seq::empty() },
            ),
    {
        let id = self.subs.len();
        self.subs.push(Subscriber { live: true, pending: Vec::new() });
        assert(self@ =~~= old(self)@.push(
            SubscriptionView { live: true, pending: Seq::<Seq<char>>::empty() },
        ));
        id
    }

    /// Broadcast one payload: it is appended to the pending queue of every
    /// live subscription, and dead subscriptions stay exactly as they were.
    pub fn publish(&mut self, payload: &str)
        ensures
            final(self)@.len() == old(self)@.len(),
            forall|i: int|
                0 <= i < old(self)@.len() ==> #[trigger] final(self)@[i] == (
                if old(self)@[i].live {
                    SubscriptionView {
                        live: true,
                        pending: old(self)@[i].pending.push(payload@),
                    }
                } else {
                    old(self)@[i]
                }),
    {
        let ghost pre = self@;
        let n = self.subs.len();
        let mut i: usize = 0;
        while i < n
            invariant
                n == pre.len() == self@.len(),
                forall|j: int|
                    i <= j < n ==> #[trigger] self@[j] == pre[j],
                forall|j: int|
                    0 <= j < i ==> #[trigger] self@[j] == (if pre[j].live {
                        SubscriptionView {
                            live: true,
                            pending: pre[j].pending.push(payload@),
                        }
                    } else {
                        pre[j]
                    }),
            decreases n - i,
        {
            let ghost cur = self.subs@;
            let ghost head = self@;
            assert forall|j: int| 0 <= j < n implies #[trigger] cur[j]@ == head[j] by {
                assert(self@[j] == cur[j]@);
            }
            assert(head[i as int] == pre[i as int]);
            if self.subs[i].live {
                let text = payload.to_owned();
                let sub = &mut self.subs[i];
                sub.pending.push(text);
                assert(self.subs@[i as int].pending@ == cur[i as int].pending@.push(text));
                assert(self@[i as int] == self.subs@[i as int]@);
                assert(self@[i as int].pending =~= pre[i as int].pending.push(payload@));
                assert(self@[i as int] == (SubscriptionView {
                    live: true,
                    pending: pre[i as int].pending.push(payload@),
                }));
                assert forall|j: int| 0 <= j < n && j != i implies #[trigger] self@[j]
                    == head[j] by {
                    assert(self.subs@[j] == cur[j]);
                    assert(self@[j] == self.subs@[j]@);
                }
            } else {
                assert(self@[i as int] == pre[i as int]);
                assert(!pre[i as int].live);
            }
            i = i + 1;
        }
    }

    /// Take the oldest unread payload of one subscription, if any.  No
    /// other subscription changes.
    pub fn next(&mut self, id: usize) -> (r: Option<String>)
        requires
            id < old(self)@.len(),
        ensures
            final(self)@.len() == old(self)@.len(),
            forall|i: int|
                0 <= i < old(self)@.len() && i != id ==> #[trigger] final(self)@[i] == old(self)@[i],
            final(self)@[id as int].live == old(self)@[id as int].live,
            old(self)@[id as int].pending.len() == 0 ==> r is None && final(self)@[id as int]
                == old(self)@[id as int],
            old(self)@[id as int].pending.len() > 0 ==> (match r {
                Some(t) => t@ == old(self)@[id as int].pending[0] && final(self)@[id as int].pending == old(self)@[id as int].pending.drop_first(),
                None => false,
            }),
    {
        let sub = &mut self.subs[id];
        if sub.pending.len() == 0 {
            assert(self@ =~= old(self)@);
            None
        } else {
            let t = sub.pending.remove(0);
            assert(self@[id as int].pending =~= old(self)@[id as int].pending.drop_first());
            assert(forall|i: int|
                0 <= i < self@.len() && i != id ==> #[trigger] self@[i] == old(self)@[i]);
            Some(t)
        }
    }

    /// Drop one subscription: it stops receiving publishes, and whatever
    /// was pending on it is discarded.  No other subscription changes.
    pub fn unsubscribe(&mut self, id: usize)
        requires
            id < old(self)@.len(),
        ensures
            final(self)@.len() == old(self)@.len(),
            forall|i: int|
                0 <= i < old(self)@.len() && i != id ==> #[trigger] final(self)@[i] == old(self)@[i],
            final(self)@[id as int] == (SubscriptionView { live: false, pending: Seq::empty() }),
    {
        let sub = &mut self.subs[id];
        sub.live = false;
        sub.pending.clear();
        assert(self@[id as int].pending =~= Seq::<Seq<char>>::empty());
        assert(self@[id as int] == (SubscriptionView {
            live: false,
            pending: Seq::<Seq<char>>::empty(),
        }));
    }
}

} // verus!
