//! Broadcast broker: a generic publish/subscribe hub.
//!
//! Producers publish values; every registered subscriber receives every
//! value published after its registration, independently and in publish
//! order.  A subscriber observes nothing published before it registered (no
//! backlog), and consuming a delivery never disturbs another subscriber.

use vstd::prelude::*;

verus! {

/// A value that can hand out an independently owned deep copy of itself,
/// equal at the level of views.  Deliveries made by the broker are such
/// copies, so a consumer can never corrupt the published state.
pub trait Snapshot: View + Sized {
    /// An independently owned copy with the same abstract value.
    fn snapshot(&self) -> (r: Self)
        ensures
            r@ == self@,
    ;
}

/// A publish/subscribe hub over values of type `T`.
///
/// The full publish history is kept; each subscriber holds a cursor into it,
/// and its queue of undelivered values is the history past the cursor.  A
/// subscriber that unsubscribes leaves a dead slot behind; the slot index is
/// never reused.
pub struct Broker<T: Snapshot> {
    /// All values published so far, in publish order.
    pub log: Vec<T>,
    /// One slot per subscriber ever registered: the position in `log` of the
    /// next value to deliver, or nothing once unsubscribed.
    pub cursors: Vec<Option<usize>>,
}

impl<T: Snapshot> Broker<T> {
    /// The abstract values published so far, in publish order.
    pub open spec fn published(&self) -> Seq<T::V> {
        self.log@.map_values(|t: T| t@)
    }

    /// How many subscriber slots have ever been handed out.
    pub open spec fn sub_count(&self) -> nat {
        self.cursors@.len()
    }

    /// Whether slot `s` belongs to a live subscriber.
    pub open spec fn is_live(&self, s: int) -> bool {
        0 <= s < self.cursors@.len() && self.cursors@[s] is Some
    }

    /// The position in the publish history of the next value slot `s` will
    /// receive.
    pub open spec fn cursor(&self, s: int) -> int {
        self.cursors@[s].unwrap() as int
    }

    /// Broker invariant: live cursors never point past the history.
    pub open spec fn wf(&self) -> bool {
        forall|s: int| #[trigger] self.is_live(s) ==> self.cursor(s) <= self.published().len()
    }

    /// The values published but not yet delivered to slot `s`, oldest first.
    pub open spec fn pending(&self, s: int) -> Seq<T::V> {
        self.published().skip(self.cursor(s))
    }

    /// An empty broker: nothing published, no subscribers.
    pub fn new() -> (b: Broker<T>)
        ensures
            b.wf(),
            b.published() == Seq::<T::V>::empty(),
            b.sub_count() == 0,
    {
        let b = Broker { log: Vec::new(), cursors: Vec::new() };
        proof {
            assert(b.published() =~= Seq::<T::V>::empty());
        }
        b
    }

    /// Register a new subscriber and return its slot.  The subscriber's
    /// queue starts empty: it will observe exactly the values published
    /// from this moment on, and no backlog.
    pub fn subscribe(&mut self) -> (s: usize)
        requires
            old(self).wf(),
        ensures
            final(self).wf(),
            s == old(self).sub_count(),
            final(self).sub_count() == old(self).sub_count() + 1,
            final(self).published() == old(self).published(),
            final(self).is_live(s as int),
            final(self).cursor(s as int) == old(self).published().len(),
            final(self).pending(s as int) == Seq::<T::V>::empty(),
            forall|t: int|
                0 <= t < old(self).sub_count() ==> final(self).is_live(t) == old(self).is_live(t),
            forall|t: int|
                old(self).is_live(t) ==> final(self).cursor(t) == old(self).cursor(t)
                    && final(self).pending(t) == old(self).pending(t),
    {
        let s = self.cursors.len();
        let c = self.log.len();
        self.cursors.push(Some(c));
        proof {
            assert(self.pending(s as int) =~= Seq::<T::V>::empty());
            assert forall|t: int| #[trigger] self.is_live(t) implies self.cursor(t)
                <= self.published().len() by {
                if t < old(self).sub_count() {
                    assert(old(self).is_live(t));
                }
            }
        }
        s
    }

    /// Publish `value`: append it to the history, so that it lands at the
    /// back of every live subscriber's queue.  No subscriber is disturbed
    /// otherwise, and a publisher never waits on a consumer.
    pub fn publish(&mut self, value: T)
        requires
            old(self).wf(),
        ensures
            final(self).wf(),
            final(self).published() == old(self).published().push(value@),
            final(self).sub_count() == old(self).sub_count(),
            forall|t: int| final(self).is_live(t) == old(self).is_live(t),
            forall|t: int| old(self).is_live(t) ==> final(self).cursor(t) == old(self).cursor(t),
            forall|t: int|
                old(self).is_live(t) ==> final(self).pending(t) == old(self).pending(t).push(
                    value@,
                ),
    {
        self.log.push(value);
        proof {
            assert(self.published() =~= old(self).published().push(value@));
            assert forall|t: int| old(self).is_live(t) implies self.pending(t) == old(
                self,
            ).pending(t).push(value@) by {
                assert(self.pending(t) =~= old(self).pending(t).push(value@));
            }
            assert forall|t: int| #[trigger] self.is_live(t) implies self.cursor(t)
                <= self.published().len() by {
                assert(old(self).is_live(t));
            }
        }
    }

    /// Deliver the next queued value to slot `s`, if any.  The delivery is a
    /// deep copy of the published value; the queues of all other slots are
    /// untouched.  A slot that is out of range or unsubscribed receives
    /// nothing.
    pub fn try_recv(&mut self, s: usize) -> (r: Option<T>)
        requires
            old(self).wf(),
        ensures
            final(self).wf(),
            final(self).published() == old(self).published(),
            final(self).sub_count() == old(self).sub_count(),
            forall|t: int|
                0 <= t < old(self).sub_count() && t != s ==> final(self).is_live(t) == old(
                    self,
                ).is_live(t),
            forall|t: int|
                old(self).is_live(t) && t != s ==> final(self).cursor(t) == old(self).cursor(t)
                    && final(self).pending(t) == old(self).pending(t),
            !old(self).is_live(s as int) ==> r is None && *final(self) == *old(self),
            old(self).is_live(s as int) ==> final(self).is_live(s as int),
            old(self).is_live(s as int) && old(self).pending(s as int).len() == 0 ==> r is None
                && *final(self) == *old(self),
            old(self).is_live(s as int) && old(self).pending(s as int).len() > 0 ==> {
                &&& r is Some
                &&& (r matches Some(v) ==> v@ == old(self).pending(s as int)[0])
                &&& final(self).pending(s as int) == old(self).pending(s as int).drop_first()
            },
    {
        if s >= self.cursors.len() {
            return None;
        }
        let cur: Option<usize> = self.cursors[s];
        match cur {
            None => None,
            Some(c) => {
                if c < self.log.len() {
                    let v = self.log[c].snapshot();
                    self.cursors.set(s, Some(c + 1));
                    proof {
                        assert(v@ == old(self).pending(s as int)[0]);
                        assert(self.pending(s as int) =~= old(self).pending(
                            s as int,
                        ).drop_first());
                        assert forall|t: int| #[trigger] self.is_live(t) implies self.cursor(t)
                            <= self.published().len() by {
                            assert(old(self).is_live(t));
                        }
                    }
                    Some(v)
                } else {
                    proof {
                        assert(old(self).is_live(s as int));
                        assert(old(self).pending(s as int) =~= Seq::<T::V>::empty());
                    }
                    None
                }
            },
        }
    }

    /// Drop the subscriber in slot `s`.  Its queue is abandoned; every other
    /// subscriber is untouched.
    pub fn unsubscribe(&mut self, s: usize)
        requires
            old(self).wf(),
        ensures
            final(self).wf(),
            final(self).published() == old(self).published(),
            final(self).sub_count() == old(self).sub_count(),
            s < old(self).sub_count() ==> !final(self).is_live(s as int),
            s >= old(self).sub_count() ==> *final(self) == *old(self),
            forall|t: int|
                0 <= t < old(self).sub_count() && t != s ==> final(self).is_live(t) == old(
                    self,
                ).is_live(t),
            forall|t: int|
                old(self).is_live(t) && t != s ==> final(self).cursor(t) == old(self).cursor(t)
                    && final(self).pending(t) == old(self).pending(t),
    {
        if s < self.cursors.len() {
            self.cursors.set(s, None);
            proof {
                assert forall|t: int| #[trigger] self.is_live(t) implies self.cursor(t)
                    <= self.published().len() by {
                    assert(old(self).is_live(t));
                }
            }
        }
    }
}

} // verus!
