//! Room store: the single source of truth for all room state.
//!
//! The store owns the canonical room instances.  Every operation returns
//! independently owned snapshots, never the canonical instance, so that a
//! caller can not corrupt store state from outside.

use vstd::prelude::*;

use crate::domain::{opt_str_view, standard_cards, Game, Room, User, UserCard};
use crate::errors::RoomError;
use crate::model::{
    lemma_drop_wf, lemma_join_wf, lemma_pick_wf, lemma_rename_wf, lemma_store_index_of,
    lemma_store_push_wf, lemma_store_update_wf, drop_notifications, rename_notifications,
    rooms_of_user, store_drop_user, store_has, store_index, store_put, store_rename_user,
    store_wf, RoomV, UserCardV, UserV,
};

verus! {

/// The shared mapping from room identifier to room.  Kept as a sequence in
/// creation order; the store invariant keeps identifiers unique, so the
/// sequence is a map.
pub struct RoomStore {
    pub rooms: Vec<Room>,
}

impl View for RoomStore {
    type V = Seq<RoomV>;

    open spec fn view(&self) -> Seq<RoomV> {
        self.rooms@.map_values(|r: Room| r@)
    }
}

impl RoomStore {
    /// Store invariant: room identifiers are unique and every room is well
    /// formed.  Established by [`RoomStore::new`] and preserved by every
    /// operation.
    pub open spec fn wf(&self) -> bool {
        store_wf(self@)
    }

    /// An empty store.
    pub fn new() -> (s: RoomStore)
        ensures
            s.wf(),
            s@ == Seq::<RoomV>::empty(),
    {
        let s = RoomStore { rooms: Vec::new() };
        proof {
            assert(s@ =~= Seq::<RoomV>::empty());
        }
        s
    }

    /// The position of the room `room_id`, if the store holds it.
    fn find_room(&self, room_id: u128) -> (r: Option<usize>)
        ensures
            r matches Some(i) ==> 0 <= i < self@.len() && self@[i as int].id == room_id,
            r is None ==> !store_has(self@, room_id),
    {
        let n = self.rooms.len();
        let mut i: usize = 0;
        while i < n
            invariant
                i <= n,
                n == self.rooms.len(),
                forall|j: int| 0 <= j < i ==> self@[j].id != room_id,
            decreases n - i,
        {
            if self.rooms[i].id == room_id {
                assert(self@[i as int].id == room_id);
                return Some(i);
            }
            i += 1;
        }
        None
    }

    /// Allocate a room with a fresh identifier, a fresh deck, an empty game
    /// and votes accepted, insert it, and return its snapshot.  Always
    /// succeeds.
    pub fn create_room(&mut self, name: Option<String>) -> (r: Room)
        requires
            old(self).wf(),
        ensures
            final(self).wf(),
            r@.name == opt_str_view(name),
            r@.deck.cards == standard_cards(),
            r@.users == Seq::<UserV>::empty(),
            r@.game.table == Seq::<UserCardV>::empty(),
            !r@.is_game_over,
            r@.wf(),
            final(self)@ == store_put(old(self)@, r@),
    {
        let room = Room::new(name);
        let snap = room.get_room();
        match self.find_room(room.id) {
            Some(i) => {
                proof {
                    lemma_store_index_of(self@, room.id, i as int);
                }
                self.rooms.set(i, room);
                proof {
                    assert(self@ =~= old(self)@.update(i as int, snap@));
                    lemma_store_update_wf(old(self)@, i as int, snap@);
                }
            },
            None => {
                self.rooms.push(room);
                proof {
                    assert(self@ =~= old(self)@.push(snap@));
                    lemma_store_push_wf(old(self)@, snap@);
                }
            },
        }
        snap
    }

    /// Add `user` to the membership of room `room_id` unless already a
    /// member, and return a snapshot of the room together with whether the
    /// membership changed.
    pub fn join_room(&mut self, room_id: u128, user: User) -> (res: Result<
        (Room, bool),
        RoomError,
    >)
        requires
            old(self).wf(),
        ensures
            final(self).wf(),
            !store_has(old(self)@, room_id) ==> (res matches Err(e) && e
                == RoomError::RoomNotFound && final(self)@ == old(self)@),
            store_has(old(self)@, room_id) ==> (res matches Ok(p) && {
                let i = store_index(old(self)@, room_id);
                &&& p.0@ == old(self)@[i].join(user@)
                &&& p.1 == !old(self)@[i].has_user(user@.id)
                &&& final(self)@ == old(self)@.update(i, p.0@)
            }),
    {
        match self.find_room(room_id) {
            None => Err(RoomError::RoomNotFound),
            Some(i) => {
                proof {
                    lemma_store_index_of(self@, room_id, i as int);
                }
                let mut room = self.rooms[i].clone();
                let ghost before = room@;
                let changed = !room.is_user_exist(user.id);
                if changed {
                    room.users.push(user);
                    proof {
                        assert(room@.users =~= before.join(user@).users);
                        assert(room@ =~= before.join(user@));
                    }
                }
                proof {
                    lemma_join_wf(before, user@);
                }
                let snap = room.get_room();
                self.rooms.set(i, room);
                proof {
                    assert(self@ =~= old(self)@.update(i as int, snap@));
                    lemma_store_update_wf(old(self)@, i as int, snap@);
                }
                Ok((snap, changed))
            },
        }
    }

    /// Record the vote `card` by `user_id` in room `room_id`: any earlier
    /// vote of that user is replaced.  Refused once the cards are revealed,
    /// for non-members, and for unknown rooms.
    pub fn pick_card(&mut self, user_id: u128, room_id: u128, card: String) -> (res: Result<
        Room,
        RoomError,
    >)
        requires
            old(self).wf(),
        ensures
            final(self).wf(),
            !store_has(old(self)@, room_id) ==> (res matches Err(e) && e
                == RoomError::RoomNotFound && final(self)@ == old(self)@),
            store_has(old(self)@, room_id) ==> {
                let i = store_index(old(self)@, room_id);
                let r0 = old(self)@[i];
                &&& r0.is_game_over ==> (res matches Err(e) && e == RoomError::GameOver
                    && final(self)@ == old(self)@)
                &&& !r0.is_game_over && !r0.has_user(user_id) ==> (res matches Err(e) && e
                    == RoomError::UserNotInRoom && final(self)@ == old(self)@)
                &&& !r0.is_game_over && r0.has_user(user_id) ==> (res matches Ok(r) && r@
                    == r0.pick(user_id, card@) && final(self)@ == old(self)@.update(i, r@))
            },
    {
        match self.find_room(room_id) {
            None => Err(RoomError::RoomNotFound),
            Some(i) => {
                proof {
                    lemma_store_index_of(self@, room_id, i as int);
                }
                if self.rooms[i].is_game_over {
                    return Err(RoomError::GameOver);
                }
                if !self.rooms[i].is_user_exist(user_id) {
                    return Err(RoomError::UserNotInRoom);
                }
                let mut room = self.rooms[i].clone();
                let ghost r0 = room@;
                let n = room.game.table.len();
                let mut table: Vec<UserCard> = Vec::new();
                let mut j: usize = 0;
                proof {
                    assert(table@.map_values(|c: UserCard| c@) =~= r0.game.table.take(0).filter(
                        |uc: UserCardV| uc.user_id != user_id,
                    ));
                }
                while j < n
                    invariant
                        j <= n,
                        n == room.game.table.len(),
                        room@ == r0,
                        table@.map_values(|c: UserCard| c@) =~= r0.game.table.take(
                            j as int,
                        ).filter(|uc: UserCardV| uc.user_id != user_id),
                    decreases n - j,
                {
                    proof {
                        let pred = |uc: UserCardV| uc.user_id != user_id;
                        let prefix = r0.game.table.take(j as int);
                        let elem = r0.game.table[j as int];
                        assert(r0.game.table.take(j + 1) =~= prefix.push(elem));
                        prefix.lemma_filter_push(elem, pred);
                    }
                    if room.game.table[j].user_id != user_id {
                        table.push(room.game.table[j].clone());
                        assert(table@.map_values(|c: UserCard| c@) =~= r0.game.table.take(
                            j + 1,
                        ).filter(|uc: UserCardV| uc.user_id != user_id));
                    } else {
                        assert(table@.map_values(|c: UserCard| c@) =~= r0.game.table.take(
                            j + 1,
                        ).filter(|uc: UserCardV| uc.user_id != user_id));
                    }
                    j += 1;
                }
                proof {
                    assert(r0.game.table.take(n as int) =~= r0.game.table);
                }
                table.push(UserCard::new(user_id, card));
                proof {
                    assert(table@.map_values(|c: UserCard| c@) =~= r0.game.table.filter(
                        |uc: UserCardV| uc.user_id != user_id,
                    ).push(UserCardV { user_id, card: Some(card@) }));
                }
                room.game.table = table;
                proof {
                    assert(room@ =~= r0.pick(user_id, card@));
                    lemma_pick_wf(r0, user_id, card@);
                }
                let snap = room.get_room();
                self.rooms.set(i, room);
                proof {
                    assert(self@ =~= old(self)@.update(i as int, snap@));
                    lemma_store_update_wf(old(self)@, i as int, snap@);
                }
                Ok(snap)
            },
        }
    }

    /// Reveal the cards of room `room_id`: votes are frozen until a reset.
    pub fn show_cards(&mut self, room_id: u128) -> (res: Result<Room, RoomError>)
        requires
            old(self).wf(),
        ensures
            final(self).wf(),
            !store_has(old(self)@, room_id) ==> (res matches Err(e) && e
                == RoomError::RoomNotFound && final(self)@ == old(self)@),
            store_has(old(self)@, room_id) ==> (res matches Ok(r) && {
                let i = store_index(old(self)@, room_id);
                &&& r@ == old(self)@[i].reveal_cards()
                &&& final(self)@ == old(self)@.update(i, r@)
            }),
    {
        match self.find_room(room_id) {
            None => Err(RoomError::RoomNotFound),
            Some(i) => {
                proof {
                    lemma_store_index_of(self@, room_id, i as int);
                }
                let mut room = self.rooms[i].clone();
                let ghost r0 = room@;
                room.is_game_over = true;
                proof {
                    assert(room@ =~= r0.reveal_cards());
                }
                let snap = room.get_room();
                self.rooms.set(i, room);
                proof {
                    assert(self@ =~= old(self)@.update(i as int, snap@));
                    lemma_store_update_wf(old(self)@, i as int, snap@);
                }
                Ok(snap)
            },
        }
    }

    /// Replace the game of room `room_id` by a fresh empty one and accept
    /// votes again, regardless of prior state.
    pub fn reset_game(&mut self, room_id: u128) -> (res: Result<Room, RoomError>)
        requires
            old(self).wf(),
        ensures
            final(self).wf(),
            !store_has(old(self)@, room_id) ==> (res matches Err(e) && e
                == RoomError::RoomNotFound && final(self)@ == old(self)@),
            store_has(old(self)@, room_id) ==> (res matches Ok(r) && {
                let i = store_index(old(self)@, room_id);
                &&& r@ == old(self)@[i].reset(r@.game.id)
                &&& r@.game.table == Seq::<UserCardV>::empty()
                &&& !r@.is_game_over
                &&& final(self)@ == old(self)@.update(i, r@)
            }),
    {
        match self.find_room(room_id) {
            None => Err(RoomError::RoomNotFound),
            Some(i) => {
                proof {
                    lemma_store_index_of(self@, room_id, i as int);
                }
                let mut room = self.rooms[i].clone();
                let ghost r0 = room@;
                room.game = Game::new();
                room.is_game_over = false;
                proof {
                    assert(room@ =~= r0.reset(room@.game.id));
                }
                let snap = room.get_room();
                self.rooms.set(i, room);
                proof {
                    assert(self@ =~= old(self)@.update(i as int, snap@));
                    lemma_store_update_wf(old(self)@, i as int, snap@);
                }
                Ok(snap)
            },
        }
    }

    /// Replace the username of the member `user_id` in every room that
    /// contains it.  Returns one snapshot per affected room, in store order,
    /// for the caller to publish.
    pub fn edit_user(&mut self, user_id: u128, username: String) -> (notifs: Vec<Room>)
        requires
            old(self).wf(),
        ensures
            final(self).wf(),
            final(self)@ == store_rename_user(old(self)@, user_id, username@),
            notifs@.map_values(|r: Room| r@) == rename_notifications(
                old(self)@,
                user_id,
                username@,
            ),
    {
        let n = self.rooms.len();
        let mut notifs: Vec<Room> = Vec::new();
        let mut i: usize = 0;
        proof {
            assert(notifs@.map_values(|r: Room| r@) =~= rename_notifications(
                old(self)@.take(0),
                user_id,
                username@,
            ));
        }
        while i < n
            invariant
                i <= n,
                n == self.rooms.len(),
                self@.len() == old(self)@.len(),
                forall|j: int| i <= j < n ==> self@[j] == (#[trigger] old(self)@[j]),
                forall|j: int|
                    0 <= j < i ==> self@[j] == (if (#[trigger] old(self)@[j]).has_user(user_id) {
                        old(self)@[j].rename_user(user_id, username@)
                    } else {
                        old(self)@[j]
                    }),
                notifs@.map_values(|r: Room| r@) =~= rename_notifications(
                    old(self)@.take(i as int),
                    user_id,
                    username@,
                ),
            decreases n - i,
        {
            proof {
                let pred = |r: RoomV| r.has_user(user_id);
                let prefix = old(self)@.take(i as int);
                let elem = old(self)@[i as int];
                assert(old(self)@.take(i + 1) =~= prefix.push(elem));
                prefix.lemma_filter_push(elem, pred);
            }
            if self.rooms[i].is_user_exist(user_id) {
                let mut room = self.rooms[i].clone();
                room.edit_user(user_id, username.clone());
                proof {
                    assert(room@ == old(self)@[i as int].rename_user(user_id, username@));
                }
                let ghost prev = notifs@.map_values(|r: Room| r@);
                notifs.push(room.get_room());
                self.rooms.set(i, room);
                proof {
                    assert(notifs@.map_values(|r: Room| r@) =~= prev.push(room@));
                    assert(notifs@.map_values(|r: Room| r@) =~= rename_notifications(
                        old(self)@.take(i + 1),
                        user_id,
                        username@,
                    ));
                }
            } else {
                proof {
                    assert(notifs@.map_values(|r: Room| r@) =~= rename_notifications(
                        old(self)@.take(i + 1),
                        user_id,
                        username@,
                    ));
                }
            }
            i += 1;
        }
        proof {
            assert(old(self)@.take(n as int) =~= old(self)@);
            assert(self@ =~= store_rename_user(old(self)@, user_id, username@));
            assert forall|j: int| 0 <= j < self@.len() implies (#[trigger] self@[j]).wf()
                && self@[j].id == old(self)@[j].id by {
                lemma_rename_wf(old(self)@[j], user_id, username@);
            }
            assert forall|a: int, b: int|
                0 <= a < self@.len() && 0 <= b < self@.len() && a != b implies self@[a].id
                != self@[b].id by {
                assert(old(self)@[a].id != old(self)@[b].id);
            }
        }
        notifs
    }

    /// Remove the member `user_id` from every room that contains it.  An
    /// existing vote of that user stays on the table.  Returns one snapshot
    /// per affected room, in store order, for the caller to publish.
    pub fn remove_user(&mut self, user_id: u128) -> (notifs: Vec<Room>)
        requires
            old(self).wf(),
        ensures
            final(self).wf(),
            final(self)@ == store_drop_user(old(self)@, user_id),
            notifs@.map_values(|r: Room| r@) == drop_notifications(old(self)@, user_id),
    {
        let n = self.rooms.len();
        let mut notifs: Vec<Room> = Vec::new();
        let mut i: usize = 0;
        proof {
            assert(notifs@.map_values(|r: Room| r@) =~= drop_notifications(
                old(self)@.take(0),
                user_id,
            ));
        }
        while i < n
            invariant
                i <= n,
                n == self.rooms.len(),
                self@.len() == old(self)@.len(),
                forall|j: int| i <= j < n ==> self@[j] == (#[trigger] old(self)@[j]),
                forall|j: int|
                    0 <= j < i ==> self@[j] == (if (#[trigger] old(self)@[j]).has_user(user_id) {
                        old(self)@[j].drop_user(user_id)
                    } else {
                        old(self)@[j]
                    }),
                notifs@.map_values(|r: Room| r@) =~= drop_notifications(
                    old(self)@.take(i as int),
                    user_id,
                ),
            decreases n - i,
        {
            proof {
                let pred = |r: RoomV| r.has_user(user_id);
                let prefix = old(self)@.take(i as int);
                let elem = old(self)@[i as int];
                assert(old(self)@.take(i + 1) =~= prefix.push(elem));
                prefix.lemma_filter_push(elem, pred);
            }
            if self.rooms[i].is_user_exist(user_id) {
                let mut room = self.rooms[i].clone();
                room.remove_user(user_id);
                proof {
                    assert(room@ == old(self)@[i as int].drop_user(user_id));
                }
                let ghost prev = notifs@.map_values(|r: Room| r@);
                notifs.push(room.get_room());
                self.rooms.set(i, room);
                proof {
                    assert(notifs@.map_values(|r: Room| r@) =~= prev.push(room@));
                    assert(notifs@.map_values(|r: Room| r@) =~= drop_notifications(
                        old(self)@.take(i + 1),
                        user_id,
                    ));
                }
            } else {
                proof {
                    assert(notifs@.map_values(|r: Room| r@) =~= drop_notifications(
                        old(self)@.take(i + 1),
                        user_id,
                    ));
                }
            }
            i += 1;
        }
        proof {
            assert(old(self)@.take(n as int) =~= old(self)@);
            assert(self@ =~= store_drop_user(old(self)@, user_id));
            assert forall|j: int| 0 <= j < self@.len() implies (#[trigger] self@[j]).wf()
                && self@[j].id == old(self)@[j].id by {
                lemma_drop_wf(old(self)@[j], user_id);
            }
            assert forall|a: int, b: int|
                0 <= a < self@.len() && 0 <= b < self@.len() && a != b implies self@[a].id
                != self@[b].id by {
                assert(old(self)@[a].id != old(self)@[b].id);
            }
        }
        notifs
    }

    /// Snapshots of all rooms, in store order.
    pub fn get_rooms(&self) -> (rs: Vec<Room>)
        ensures
            rs@.map_values(|r: Room| r@) == self@,
    {
        let rs = self.rooms.clone();
        proof {
            assert forall|k: int| 0 <= k < rs@.len() implies rs@[k]@ == self.rooms@[k]@ by {
                assert(cloned::<Room>(self.rooms@[k], rs@[k]));
            }
            assert(rs@.map_values(|r: Room| r@) =~= self@);
        }
        rs
    }

    /// Snapshots of the rooms that contain the member `user_id`, in store
    /// order.
    pub fn get_user_rooms(&self, user_id: u128) -> (rs: Vec<Room>)
        ensures
            rs@.map_values(|r: Room| r@) == rooms_of_user(self@, user_id),
    {
        let n = self.rooms.len();
        let mut rs: Vec<Room> = Vec::new();
        let mut i: usize = 0;
        proof {
            assert(rs@.map_values(|r: Room| r@) =~= rooms_of_user(self@.take(0), user_id));
        }
        while i < n
            invariant
                i <= n,
                n == self.rooms.len(),
                rs@.map_values(|r: Room| r@) =~= rooms_of_user(self@.take(i as int), user_id),
            decreases n - i,
        {
            proof {
                let pred = |r: RoomV| r.has_user(user_id);
                let prefix = self@.take(i as int);
                let elem = self@[i as int];
                assert(self@.take(i + 1) =~= prefix.push(elem));
                prefix.lemma_filter_push(elem, pred);
            }
            if self.rooms[i].is_user_exist(user_id) {
                rs.push(self.rooms[i].get_room());
                assert(rs@.map_values(|r: Room| r@) =~= rooms_of_user(
                    self@.take(i + 1),
                    user_id,
                ));
            } else {
                assert(rs@.map_values(|r: Room| r@) =~= rooms_of_user(
                    self@.take(i + 1),
                    user_id,
                ));
            }
            i += 1;
        }
        proof {
            assert(self@.take(n as int) =~= self@);
        }
        rs
    }
}

} // verus!
