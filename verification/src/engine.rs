//! The room session engine: the room store wired to the broadcast broker.
//!
//! Every mutating operation that changes a room's externally visible state
//! publishes exactly one snapshot per affected room, after the store
//! mutation, so a subscriber registered beforehand observes room states in
//! the order the store produced them.

use vstd::prelude::*;

use crate::broker::{Broker, Snapshot};
use crate::domain::{opt_str_view, standard_cards, Room, User};
use crate::errors::RoomError;
use crate::model::{
    drop_notifications, rename_notifications, rooms_of_user, store_drop_user, store_has,
    store_index, store_put, store_rename_user, RoomV, UserCardV, UserV,
};
use crate::store::RoomStore;

verus! {

impl Snapshot for Room {
    fn snapshot(&self) -> (r: Self)
        ensures
            r@ == self@,
    {
        self.get_room()
    }
}

/// The broker grew by exactly the snapshots `snaps`, in order: they were
/// appended to the publish history and to the queue of every subscriber
/// registered beforehand, and no subscriber was added or dropped.
pub open spec fn broker_extended(b0: Broker<Room>, b1: Broker<Room>, snaps: Seq<RoomV>) -> bool {
    &&& b1.published() == b0.published() + snaps
    &&& b1.sub_count() == b0.sub_count()
    &&& forall|t: int| b1.is_live(t) == b0.is_live(t)
    &&& forall|t: int| b0.is_live(t) ==> b1.pending(t) == b0.pending(t) + snaps
}

/// The engine: the single source of truth for room state, plus the broker
/// that fans snapshots out to subscribers.  Constructed explicitly and
/// passed by handle into whatever layer registers the external operations.
pub struct Engine {
    pub store: RoomStore,
    pub broker: Broker<Room>,
}

impl Engine {
    /// Engine invariant: the store and the broker are well formed.
    pub open spec fn wf(&self) -> bool {
        &&& self.store.wf()
        &&& self.broker.wf()
    }

    /// The abstract room states, in creation order.
    pub open spec fn rooms(&self) -> Seq<RoomV> {
        self.store@
    }

    /// The room snapshots published so far, in publish order.
    pub open spec fn published(&self) -> Seq<RoomV> {
        self.broker.published()
    }

    /// A fresh engine: no rooms, nothing published, no subscribers.
    pub fn new() -> (e: Engine)
        ensures
            e.wf(),
            e.rooms() == Seq::<RoomV>::empty(),
            e.published() == Seq::<RoomV>::empty(),
            e.broker.sub_count() == 0,
    {
        Engine { store: RoomStore::new(), broker: Broker::new() }
    }

    /// Publish every snapshot of `notifs`, in order.
    fn publish_all(&mut self, notifs: Vec<Room>)
        requires
            old(self).broker.wf(),
        ensures
            final(self).broker.wf(),
            final(self).store == old(self).store,
            broker_extended(
                old(self).broker,
                final(self).broker,
                notifs@.map_values(|r: Room| r@),
            ),
    {
        let ghost snaps = notifs@.map_values(|r: Room| r@);
        let n = notifs.len();
        let mut k: usize = 0;
        proof {
            assert(self.broker.published() =~= old(self).broker.published() + snaps.take(0));
            assert forall|t: int| old(self).broker.is_live(t) implies self.broker.pending(t)
                == old(self).broker.pending(t) + snaps.take(0) by {
                assert(self.broker.pending(t) =~= old(self).broker.pending(t) + snaps.take(0));
            }
        }
        while k < n
            invariant
                k <= n,
                n == notifs@.len(),
                snaps == notifs@.map_values(|r: Room| r@),
                self.store == old(self).store,
                self.broker.wf(),
                self.broker.sub_count() == old(self).broker.sub_count(),
                forall|t: int| self.broker.is_live(t) == old(self).broker.is_live(t),
                self.broker.published() == old(self).broker.published() + snaps.take(k as int),
                forall|t: int|
                    old(self).broker.is_live(t) ==> self.broker.pending(t) == old(
                        self,
                    ).broker.pending(t) + snaps.take(k as int),
            decreases n - k,
        {
            let ghost bmid = self.broker;
            self.broker.publish(notifs[k].get_room());
            proof {
                assert(snaps.take(k + 1) =~= snaps.take(k as int).push(snaps[k as int]));
                assert(self.broker.published() =~= old(self).broker.published() + snaps.take(
                    k + 1,
                ));
                assert forall|t: int| old(self).broker.is_live(t) implies self.broker.pending(t)
                    == old(self).broker.pending(t) + snaps.take(k + 1) by {
                    assert(bmid.is_live(t));
                    assert(self.broker.pending(t) == bmid.pending(t).push(snaps[k as int]));
                    assert(self.broker.pending(t) =~= old(self).broker.pending(t) + snaps.take(
                        k + 1,
                    ));
                }
            }
            k += 1;
        }
        proof {
            assert(snaps.take(n as int) =~= snaps);
        }
    }

    /// Create a room with a fresh identifier, a fresh deck, an empty game
    /// and votes accepted; insert it and publish its snapshot.  Always
    /// succeeds.
    pub fn create_room(&mut self, name: Option<String>) -> (r: Room)
        requires
            old(self).wf(),
        ensures
            final(self).wf(),
            r@.name == opt_str_view(name),
            r@.deck.cards == standard_cards(),
            r@.users == Seq::<UserV>::empty(),
            r@.game.table == Seq::<UserCardV>::empty(),
            !r@.is_game_over,
            r@.wf(),
            final(self).rooms() == store_put(old(self).rooms(), r@),
            broker_extended(old(self).broker, final(self).broker, seq![r@]),
    {
        let r = self.store.create_room(name);
        let ghost b0 = self.broker;
        self.broker.publish(r.get_room());
        proof {
            lemma_single_publish(b0, self.broker, r@);
        }
        r
    }

    /// Add `user` to the membership of room `room_id` unless already a
    /// member; publish a snapshot exactly when the membership changed.
    pub fn join_room(&mut self, room_id: u128, user: User) -> (res: Result<Room, RoomError>)
        requires
            old(self).wf(),
        ensures
            final(self).wf(),
            !store_has(old(self).rooms(), room_id) ==> (res matches Err(e) && e
                == RoomError::RoomNotFound && final(self).rooms() == old(self).rooms()
                && final(self).broker == old(self).broker),
            store_has(old(self).rooms(), room_id) ==> (res matches Ok(r) && {
                let i = store_index(old(self).rooms(), room_id);
                let r0 = old(self).rooms()[i];
                &&& r@ == r0.join(user@)
                &&& final(self).rooms() == old(self).rooms().update(i, r@)
                &&& r0.has_user(user@.id) ==> final(self).broker == old(self).broker
                &&& !r0.has_user(user@.id) ==> broker_extended(
                    old(self).broker,
                    final(self).broker,
                    seq![r@],
                )
            }),
    {
        match self.store.join_room(room_id, user) {
            Err(e) => Err(e),
            Ok((r, changed)) => {
                if changed {
                    let ghost b0 = self.broker;
                    self.broker.publish(r.get_room());
                    proof {
                        lemma_single_publish(b0, self.broker, r@);
                    }
                }
                Ok(r)
            },
        }
    }

    /// Record the vote `card` by `user_id` in room `room_id` and publish the
    /// room's snapshot.  Any earlier vote of that user is replaced.  Refused
    /// once the cards are revealed, for non-members, and for unknown rooms;
    /// a refusal changes nothing and publishes nothing.
    pub fn pick_card(&mut self, user_id: u128, room_id: u128, card: String) -> (res: Result<
        Room,
        RoomError,
    >)
        requires
            old(self).wf(),
        ensures
            final(self).wf(),
            !store_has(old(self).rooms(), room_id) ==> (res matches Err(e) && e
                == RoomError::RoomNotFound && final(self).rooms() == old(self).rooms()
                && final(self).broker == old(self).broker),
            store_has(old(self).rooms(), room_id) ==> {
                let i = store_index(old(self).rooms(), room_id);
                let r0 = old(self).rooms()[i];
                &&& r0.is_game_over ==> (res matches Err(e) && e == RoomError::GameOver
                    && final(self).rooms() == old(self).rooms()
                    && final(self).broker == old(self).broker)
                &&& !r0.is_game_over && !r0.has_user(user_id) ==> (res matches Err(e) && e
                    == RoomError::UserNotInRoom && final(self).rooms() == old(self).rooms()
                    && final(self).broker == old(self).broker)
                &&& !r0.is_game_over && r0.has_user(user_id) ==> (res matches Ok(r) && r@
                    == r0.pick(user_id, card@)
                    && final(self).rooms() == old(self).rooms().update(i, r@)
                    && broker_extended(
                    old(self).broker,
                    final(self).broker,
                    seq![r@],
                ))
            },
    {
        match self.store.pick_card(user_id, room_id, card) {
            Err(e) => Err(e),
            Ok(r) => {
                let ghost b0 = self.broker;
                self.broker.publish(r.get_room());
                proof {
                    lemma_single_publish(b0, self.broker, r@);
                }
                Ok(r)
            },
        }
    }

    /// Reveal the cards of room `room_id`, freezing votes until a reset,
    /// and publish the room's snapshot.
    pub fn show_cards(&mut self, room_id: u128) -> (res: Result<Room, RoomError>)
        requires
            old(self).wf(),
        ensures
            final(self).wf(),
            !store_has(old(self).rooms(), room_id) ==> (res matches Err(e) && e
                == RoomError::RoomNotFound && final(self).rooms() == old(self).rooms()
                && final(self).broker == old(self).broker),
            store_has(old(self).rooms(), room_id) ==> (res matches Ok(r) && {
                let i = store_index(old(self).rooms(), room_id);
                &&& r@ == old(self).rooms()[i].reveal_cards()
                &&& final(self).rooms() == old(self).rooms().update(i, r@)
                &&& broker_extended(old(self).broker, final(self).broker, seq![r@])
            }),
    {
        match self.store.show_cards(room_id) {
            Err(e) => Err(e),
            Ok(r) => {
                let ghost b0 = self.broker;
                self.broker.publish(r.get_room());
                proof {
                    lemma_single_publish(b0, self.broker, r@);
                }
                Ok(r)
            },
        }
    }

    /// Replace the game of room `room_id` by a fresh empty one, accept
    /// votes again regardless of prior state, and publish the room's
    /// snapshot.
    pub fn reset_game(&mut self, room_id: u128) -> (res: Result<Room, RoomError>)
        requires
            old(self).wf(),
        ensures
            final(self).wf(),
            !store_has(old(self).rooms(), room_id) ==> (res matches Err(e) && e
                == RoomError::RoomNotFound && final(self).rooms() == old(self).rooms()
                && final(self).broker == old(self).broker),
            store_has(old(self).rooms(), room_id) ==> (res matches Ok(r) && {
                let i = store_index(old(self).rooms(), room_id);
                &&& r@ == old(self).rooms()[i].reset(r@.game.id)
                &&& r@.game.table == Seq::<UserCardV>::empty()
                &&& !r@.is_game_over
                &&& final(self).rooms() == old(self).rooms().update(i, r@)
                &&& broker_extended(old(self).broker, final(self).broker, seq![r@])
            }),
    {
        match self.store.reset_game(room_id) {
            Err(e) => Err(e),
            Ok(r) => {
                let ghost b0 = self.broker;
                self.broker.publish(r.get_room());
                proof {
                    lemma_single_publish(b0, self.broker, r@);
                }
                Ok(r)
            },
        }
    }

    /// Replace the username of the member `user_id` in every room that
    /// contains it, publish one snapshot per affected room in store order,
    /// and return the updated user record.
    pub fn edit_user(&mut self, user_id: u128, username: String) -> (u: User)
        requires
            old(self).wf(),
        ensures
            final(self).wf(),
            u@ == (UserV { id: user_id, username: username@ }),
            final(self).rooms() == store_rename_user(old(self).rooms(), user_id, username@),
            broker_extended(
                old(self).broker,
                final(self).broker,
                rename_notifications(old(self).rooms(), user_id, username@),
            ),
    {
        let updated = User { id: user_id, username: username.clone() };
        let notifs = self.store.edit_user(user_id, username);
        self.publish_all(notifs);
        updated
    }

    /// Remove the member `user_id` from every room that contains it and
    /// publish one snapshot per affected room, in store order.  An existing
    /// vote of that user stays on the table.
    pub fn logout(&mut self, user_id: u128) -> (b: bool)
        requires
            old(self).wf(),
        ensures
            final(self).wf(),
            b,
            final(self).rooms() == store_drop_user(old(self).rooms(), user_id),
            broker_extended(
                old(self).broker,
                final(self).broker,
                drop_notifications(old(self).rooms(), user_id),
            ),
    {
        let notifs = self.store.remove_user(user_id);
        self.publish_all(notifs);
        true
    }

    /// Snapshots of all rooms, in creation order.
    pub fn get_rooms(&self) -> (rs: Vec<Room>)
        ensures
            rs@.map_values(|r: Room| r@) == self.rooms(),
    {
        self.store.get_rooms()
    }

    /// Snapshots of the rooms that contain the member `user_id`, in
    /// creation order.
    pub fn get_user_rooms(&self, user_id: u128) -> (rs: Vec<Room>)
        ensures
            rs@.map_values(|r: Room| r@) == rooms_of_user(self.rooms(), user_id),
    {
        self.store.get_user_rooms(user_id)
    }

    /// Register a subscriber for all room updates and return its slot.  The
    /// subscriber observes exactly the snapshots published from this moment
    /// on — no backlog — in publish order, through
    /// [`Broker::try_recv`] on the engine's broker.
    pub fn subscribe_to_rooms(&mut self) -> (s: usize)
        requires
            old(self).wf(),
        ensures
            final(self).wf(),
            final(self).rooms() == old(self).rooms(),
            final(self).published() == old(self).published(),
            s == old(self).broker.sub_count(),
            final(self).broker.sub_count() == old(self).broker.sub_count() + 1,
            final(self).broker.is_live(s as int),
            final(self).broker.cursor(s as int) == old(self).published().len(),
            final(self).broker.pending(s as int) == Seq::<RoomV>::empty(),
            forall|t: int|
                0 <= t < old(self).broker.sub_count() ==> final(self).broker.is_live(t) == old(
                    self,
                ).broker.is_live(t),
            forall|t: int|
                old(self).broker.is_live(t) ==> final(self).broker.pending(t) == old(
                    self,
                ).broker.pending(t),
    {
        self.broker.subscribe()
    }
}

/// Allocate a user identity: a fresh identifier carrying `username`.  No
/// room is affected.
pub fn create_user(username: String) -> (u: User)
    ensures
        u@.username == username@,
{
    User::new(username)
}

/// A single publish extends the broker by exactly that snapshot.
proof fn lemma_single_publish(b0: Broker<Room>, b1: Broker<Room>, snap: RoomV)
    requires
        b1.published() == b0.published().push(snap),
        b1.sub_count() == b0.sub_count(),
        forall|t: int| b1.is_live(t) == b0.is_live(t),
        forall|t: int| b0.is_live(t) ==> b1.pending(t) == b0.pending(t).push(snap),
    ensures
        broker_extended(b0, b1, seq![snap]),
{
    assert(b1.published() =~= b0.published() + seq![snap]);
    assert forall|t: int| b0.is_live(t) implies b1.pending(t) == b0.pending(t) + seq![
        snap,
    ] by {
        assert(b1.pending(t) =~= b0.pending(t) + seq![snap]);
    }
}

} // verus!
