//! Mathematical model of the room session engine.
//!
//! Every executable type in the crate has a view in terms of these ghost
//! structures, and every operation of the room store is specified as a pure
//! transition on them.

use vstd::prelude::*;

verus! {

/// Abstract value of a participant: a stable identifier and a username.
pub ghost struct UserV {
    pub id: u128,
    pub username: Seq<char>,
}

/// Abstract value of one user's current vote in a game.
pub ghost struct UserCardV {
    pub user_id: u128,
    pub card: Option<Seq<char>>,
}

/// Abstract value of one estimation round.
pub ghost struct GameV {
    pub id: u128,
    pub table: Seq<UserCardV>,
}

/// Abstract value of the fixed card catalog of a room.
pub ghost struct DeckV {
    pub id: u128,
    pub cards: Seq<Seq<char>>,
}

/// Abstract value of one room: membership, deck, and current game state.
pub ghost struct RoomV {
    pub id: u128,
    pub name: Option<Seq<char>>,
    pub deck: DeckV,
    pub users: Seq<UserV>,
    pub game: GameV,
    pub is_game_over: bool,
}

/// No two elements of the sequence share a key.
pub open spec fn unique_by<A>(s: Seq<A>, key: spec_fn(A) -> u128) -> bool {
    forall|i: int, j: int|
        0 <= i < s.len() && 0 <= j < s.len() && i != j ==> key(s[i]) != key(s[j])
}

/// No two users of the sequence share an identifier.
pub open spec fn users_unique(users: Seq<UserV>) -> bool {
    unique_by(users, |u: UserV| u.id)
}

/// No two votes of the table belong to the same user.
pub open spec fn table_unique(table: Seq<UserCardV>) -> bool {
    unique_by(table, |uc: UserCardV| uc.user_id)
}

/// The votes of the table that belong to `user_id`.
pub open spec fn votes_of(table: Seq<UserCardV>, user_id: u128) -> Seq<UserCardV> {
    table.filter(|uc: UserCardV| uc.user_id == user_id)
}

/// A table after `user_id` votes `card`: any earlier vote of that user is
/// removed and the new vote is appended.
pub open spec fn table_pick(table: Seq<UserCardV>, user_id: u128, card: Seq<char>) -> Seq<
    UserCardV,
> {
    table.filter(|uc: UserCardV| uc.user_id != user_id).push(
        UserCardV { user_id, card: Some(card) },
    )
}

impl RoomV {
    /// Room invariant: membership and table are free of duplicates.
    pub open spec fn wf(self) -> bool {
        &&& users_unique(self.users)
        &&& table_unique(self.game.table)
    }

    /// Whether `user_id` is a member of the room.
    pub open spec fn has_user(self, user_id: u128) -> bool {
        exists|i: int| 0 <= i < self.users.len() && self.users[i].id == user_id
    }

    /// The room after `user` joins: appended to the membership unless the
    /// identifier is already present.
    pub open spec fn join(self, user: UserV) -> RoomV {
        if self.has_user(user.id) {
            self
        } else {
            RoomV { users: self.users.push(user), ..self }
        }
    }

    /// The room after `user_id` votes `card`.
    pub open spec fn pick(self, user_id: u128, card: Seq<char>) -> RoomV {
        RoomV {
            game: GameV { id: self.game.id, table: table_pick(self.game.table, user_id, card) },
            ..self
        }
    }

    /// The room after the cards are revealed: votes are frozen until a reset.
    pub open spec fn reveal_cards(self) -> RoomV {
        RoomV { is_game_over: true, ..self }
    }

    /// The room after a reset: a fresh game with identifier `game_id` and an
    /// empty table, votes accepted again.
    pub open spec fn reset(self, game_id: u128) -> RoomV {
        RoomV {
            game: GameV { id: game_id, table: Seq::empty() },
            is_game_over: false,
            ..self
        }
    }

    /// The room after the member `user_id` is renamed to `username`.
    pub open spec fn rename_user(self, user_id: u128, username: Seq<char>) -> RoomV {
        RoomV {
            users: self.users.map_values(
                |u: UserV|
                    if u.id == user_id {
                        UserV { id: u.id, username }
                    } else {
                        u
                    },
            ),
            ..self
        }
    }

    /// The room after `user_id` leaves.  An existing vote of that user stays
    /// on the table.
    pub open spec fn drop_user(self, user_id: u128) -> RoomV {
        RoomV { users: self.users.filter(|u: UserV| u.id != user_id), ..self }
    }
}

/// No two rooms of the store share an identifier.
pub open spec fn rooms_unique(rooms: Seq<RoomV>) -> bool {
    unique_by(rooms, |r: RoomV| r.id)
}

/// Store invariant: room identifiers are unique and every room is well
/// formed.
pub open spec fn store_wf(rooms: Seq<RoomV>) -> bool {
    &&& rooms_unique(rooms)
    &&& forall|i: int| 0 <= i < rooms.len() ==> (#[trigger] rooms[i]).wf()
}

/// Whether the store holds a room with identifier `room_id`.
pub open spec fn store_has(rooms: Seq<RoomV>, room_id: u128) -> bool {
    exists|i: int| 0 <= i < rooms.len() && rooms[i].id == room_id
}

/// The position of the room with identifier `room_id`.  Unique whenever the
/// store invariant holds.
pub open spec fn store_index(rooms: Seq<RoomV>, room_id: u128) -> int {
    choose|i: int| 0 <= i < rooms.len() && rooms[i].id == room_id
}

/// The store after `room` is put under its identifier: an existing room with
/// the same identifier is replaced, otherwise the room is appended.
pub open spec fn store_put(rooms: Seq<RoomV>, room: RoomV) -> Seq<RoomV> {
    if store_has(rooms, room.id) {
        rooms.update(store_index(rooms, room.id), room)
    } else {
        rooms.push(room)
    }
}

/// The store after the member `user_id` is renamed to `username` in every
/// room that contains it.
pub open spec fn store_rename_user(rooms: Seq<RoomV>, user_id: u128, username: Seq<char>) -> Seq<
    RoomV,
> {
    rooms.map_values(
        |r: RoomV|
            if r.has_user(user_id) {
                r.rename_user(user_id, username)
            } else {
                r
            },
    )
}

/// The snapshots published for a rename, one per affected room, in store
/// order: each is the affected room after the rename.
pub open spec fn rename_notifications(rooms: Seq<RoomV>, user_id: u128, username: Seq<char>) -> Seq<
    RoomV,
> {
    rooms.filter(|r: RoomV| r.has_user(user_id)).map_values(
        |r: RoomV| r.rename_user(user_id, username),
    )
}

/// The store after `user_id` leaves every room that contains it.
pub open spec fn store_drop_user(rooms: Seq<RoomV>, user_id: u128) -> Seq<RoomV> {
    rooms.map_values(
        |r: RoomV|
            if r.has_user(user_id) {
                r.drop_user(user_id)
            } else {
                r
            },
    )
}

/// The snapshots published for a logout, one per affected room, in store
/// order: each is the affected room after the member left.
pub open spec fn drop_notifications(rooms: Seq<RoomV>, user_id: u128) -> Seq<RoomV> {
    rooms.filter(|r: RoomV| r.has_user(user_id)).map_values(|r: RoomV| r.drop_user(user_id))
}

/// The rooms of the store that contain `user_id`.
pub open spec fn rooms_of_user(rooms: Seq<RoomV>, user_id: u128) -> Seq<RoomV> {
    rooms.filter(|r: RoomV| r.has_user(user_id))
}

/// Filtering keeps keys unique, and every kept element comes from the
/// original sequence.
pub proof fn lemma_filter_unique_by<A>(s: Seq<A>, key: spec_fn(A) -> u128, pred: spec_fn(A) -> bool)
    requires
        unique_by(s, key),
    ensures
        unique_by(s.filter(pred), key),
        forall|k: int|
            0 <= k < s.filter(pred).len() ==> s.contains(#[trigger] s.filter(pred)[k]),
    decreases s.len(),
{
    reveal(Seq::filter);
    if s.len() != 0 {
        let d = s.drop_last();
        assert(unique_by(d, key));
        lemma_filter_unique_by(d, key, pred);
        if pred(s.last()) {
            let f = d.filter(pred).push(s.last());
            assert(s.filter(pred) == f);
            assert forall|i: int, j: int|
                0 <= i < f.len() && 0 <= j < f.len() && i != j implies key(f[i]) != key(
                f[j],
            ) by {
                if i < f.len() - 1 && j < f.len() - 1 {
                } else {
                    let m = if i < j { i } else { j };
                    assert(f[m] == d.filter(pred)[m]);
                    assert(d.contains(d.filter(pred)[m]));
                    let w = choose|w: int| 0 <= w < d.len() && d[w] == f[m];
                    assert(key(s[w]) != key(s[s.len() - 1]));
                }
            }
            assert forall|k: int| 0 <= k < s.filter(pred).len() implies s.contains(
                #[trigger] s.filter(pred)[k],
            ) by {
                if k < f.len() - 1 {
                    assert(d.contains(d.filter(pred)[k]));
                    let w = choose|w: int| 0 <= w < d.len() && d[w] == f[k];
                    assert(s[w] == f[k]);
                } else {
                    assert(s[s.len() - 1] == f[k]);
                }
            }
        } else {
            assert forall|k: int| 0 <= k < s.filter(pred).len() implies s.contains(
                #[trigger] s.filter(pred)[k],
            ) by {
                assert(d.contains(d.filter(pred)[k]));
                let w = choose|w: int| 0 <= w < d.len() && d[w] == s.filter(pred)[k];
                assert(s[w] == s.filter(pred)[k]);
            }
        }
    }
}

/// Under the store invariant, the position of a room identifier is unique,
/// and `store_index` finds it.
pub proof fn lemma_store_index_of(rooms: Seq<RoomV>, room_id: u128, i: int)
    requires
        rooms_unique(rooms),
        0 <= i < rooms.len(),
        rooms[i].id == room_id,
    ensures
        store_has(rooms, room_id),
        store_index(rooms, room_id) == i,
{
    assert(store_has(rooms, room_id));
    let j = store_index(rooms, room_id);
    assert(0 <= j < rooms.len() && rooms[j].id == room_id);
}

/// Replacing a room by one with the same identifier keeps the store well
/// formed.
pub proof fn lemma_store_update_wf(s: Seq<RoomV>, i: int, r: RoomV)
    requires
        store_wf(s),
        0 <= i < s.len(),
        r.id == s[i].id,
        r.wf(),
    ensures
        store_wf(s.update(i, r)),
{
    let s2 = s.update(i, r);
    assert forall|a: int, b: int|
        0 <= a < s2.len() && 0 <= b < s2.len() && a != b implies s2[a].id != s2[b].id by {
        assert(s[a].id != s[b].id);
    }
}

/// Appending a room under a fresh identifier keeps the store well formed.
pub proof fn lemma_store_push_wf(s: Seq<RoomV>, r: RoomV)
    requires
        store_wf(s),
        !store_has(s, r.id),
        r.wf(),
    ensures
        store_wf(s.push(r)),
{
    let s2 = s.push(r);
    assert forall|a: int, b: int|
        0 <= a < s2.len() && 0 <= b < s2.len() && a != b implies s2[a].id != s2[b].id by {
        if a < s.len() && b < s.len() {
            assert(s[a].id != s[b].id);
        } else {
            let m = if a < b { a } else { b };
            assert(s2[m] == s[m]);
        }
    }
}

/// Joining keeps a room well formed, keeps its identifier, and makes the
/// joining user a member.
pub proof fn lemma_join_wf(r: RoomV, u: UserV)
    requires
        r.wf(),
    ensures
        r.join(u).wf(),
        r.join(u).id == r.id,
        r.join(u).has_user(u.id),
        r.join(u).game == r.game,
{
    if !r.has_user(u.id) {
        let users = r.users.push(u);
        assert forall|i: int, j: int|
            0 <= i < users.len() && 0 <= j < users.len() && i != j implies users[i].id
            != users[j].id by {
            if i < users.len() - 1 && j < users.len() - 1 {
                assert(r.users[i].id != r.users[j].id);
            } else {
                let m = if i < j { i } else { j };
                assert(users[m] == r.users[m]);
            }
        }
        assert(users[users.len() - 1].id == u.id);
    }
}

/// Voting keeps a room well formed and changes nothing but the table.
pub proof fn lemma_pick_wf(r: RoomV, user_id: u128, card: Seq<char>)
    requires
        r.wf(),
    ensures
        r.pick(user_id, card).wf(),
        r.pick(user_id, card).id == r.id,
        r.pick(user_id, card).users == r.users,
        r.pick(user_id, card).is_game_over == r.is_game_over,
{
    let pred = |uc: UserCardV| uc.user_id != user_id;
    let kept = r.game.table.filter(pred);
    lemma_filter_unique_by(r.game.table, |uc: UserCardV| uc.user_id, pred);
    broadcast use vstd::seq_lib::group_filter_ensures;

    let t = table_pick(r.game.table, user_id, card);
    assert forall|i: int, j: int|
        0 <= i < t.len() && 0 <= j < t.len() && i != j implies t[i].user_id != t[j].user_id by {
        if i < t.len() - 1 && j < t.len() - 1 {
            assert(kept[i].user_id != kept[j].user_id);
        } else {
            let m = if i < j { i } else { j };
            assert(t[m] == kept[m]);
            assert(pred(kept[m]));
        }
    }
}

/// Renaming a member keeps a room well formed and changes neither the
/// identifier, nor membership by identifier, nor the game.
pub proof fn lemma_rename_wf(r: RoomV, user_id: u128, username: Seq<char>)
    requires
        r.wf(),
    ensures
        r.rename_user(user_id, username).wf(),
        r.rename_user(user_id, username).id == r.id,
        r.rename_user(user_id, username).game == r.game,
        r.rename_user(user_id, username).is_game_over == r.is_game_over,
        forall|x: u128| r.rename_user(user_id, username).has_user(x) == r.has_user(x),
{
    let rr = r.rename_user(user_id, username);
    assert forall|k: int| 0 <= k < rr.users.len() implies (#[trigger] rr.users[k]).id
        == r.users[k].id by {}
    assert forall|x: u128| rr.has_user(x) == r.has_user(x) by {
        if r.has_user(x) {
            let w = choose|w: int| 0 <= w < r.users.len() && r.users[w].id == x;
            assert(rr.users[w].id == x);
        }
        if rr.has_user(x) {
            let w = choose|w: int| 0 <= w < rr.users.len() && rr.users[w].id == x;
            assert(r.users[w].id == x);
        }
    }
}

/// Removing a member keeps a room well formed, keeps its identifier and
/// game, and removes exactly that membership.
pub proof fn lemma_drop_wf(r: RoomV, user_id: u128)
    requires
        r.wf(),
    ensures
        r.drop_user(user_id).wf(),
        r.drop_user(user_id).id == r.id,
        r.drop_user(user_id).game == r.game,
        !r.drop_user(user_id).has_user(user_id),
{
    let pred = |u: UserV| u.id != user_id;
    lemma_filter_unique_by(r.users, |u: UserV| u.id, pred);
    broadcast use vstd::seq_lib::group_filter_ensures;

    let kept = r.users.filter(pred);
    assert forall|k: int| 0 <= k < kept.len() implies (#[trigger] kept[k]).id != user_id by {
        assert(pred(kept[k]));
    }
}

} // verus!
