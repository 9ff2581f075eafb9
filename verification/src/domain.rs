//! Domain value types: users, cards, games, decks, and rooms.
//!
//! Each type views to its ghost counterpart in [`crate::model`].  Cloning is
//! implemented by hand so that a clone is provably a deep copy: snapshots
//! handed across component boundaries are independent of the store's
//! canonical instances.

use vstd::prelude::*;

use crate::ids::fresh_id;
use crate::model::{DeckV, GameV, RoomV, UserCardV, UserV};

verus! {

/// A participant: a stable opaque identifier and a mutable username.
#[derive(Debug)]
pub struct User {
    pub id: u128,
    pub username: String,
}

impl View for User {
    type V = UserV;

    open spec fn view(&self) -> UserV {
        UserV { id: self.id, username: self.username@ }
    }
}

impl Clone for User {
    fn clone(&self) -> (r: Self)
        ensures
            r == *self,
    {
        User { id: self.id, username: self.username.clone() }
    }
}

impl User {
    /// A new participant under a fresh identifier.
    pub fn new(username: String) -> (u: User)
        ensures
            u@.username == username@,
    {
        User { id: fresh_id(), username }
    }
}

/// One user's current vote in a game.
#[derive(Debug)]
pub struct UserCard {
    pub user_id: u128,
    pub card: Option<String>,
}

impl View for UserCard {
    type V = UserCardV;

    open spec fn view(&self) -> UserCardV {
        UserCardV { user_id: self.user_id, card: opt_str_view(self.card) }
    }
}

impl Clone for UserCard {
    fn clone(&self) -> (r: Self)
        ensures
            r == *self,
    {
        let card = self.card.clone();
        proof {
            if self.card is Some {
                assert(card == self.card);
            }
        }
        UserCard { user_id: self.user_id, card }
    }
}

impl UserCard {
    /// A vote of `card` by `user_id`.
    pub fn new(user_id: u128, card: String) -> (c: UserCard)
        ensures
            c@ == (UserCardV { user_id, card: Some(card@) }),
    {
        UserCard { user_id, card: Some(card) }
    }
}

/// The view of an optional string.
pub open spec fn opt_str_view(s: Option<String>) -> Option<Seq<char>> {
    match s {
        Some(s) => Some(s@),
        None => None,
    }
}

/// One estimation round: the votes placed so far.
#[derive(Debug)]
pub struct Game {
    pub id: u128,
    pub table: Vec<UserCard>,
}

impl View for Game {
    type V = GameV;

    open spec fn view(&self) -> GameV {
        GameV { id: self.id, table: self.table@.map_values(|c: UserCard| c@) }
    }
}

impl Clone for Game {
    fn clone(&self) -> (r: Self)
        ensures
            r@ == self@,
    {
        let table = self.table.clone();
        proof {
            assert(table@ =~= self.table@);
            assert(table@.map_values(|c: UserCard| c@) =~= self.table@.map_values(
                |c: UserCard| c@,
            ));
        }
        Game { id: self.id, table }
    }
}

impl Game {
    /// A fresh round with an empty table.
    pub fn new() -> (g: Game)
        ensures
            g@.table == Seq::<UserCardV>::empty(),
    {
        let g = Game { id: fresh_id(), table: Vec::new() };
        proof {
            assert(g@.table =~= Seq::<UserCardV>::empty());
        }
        g
    }
}

/// The fixed catalog of selectable estimate values, in display order.
pub open spec fn standard_cards() -> Seq<Seq<char>> {
    seq![
        "0"@,
        "1"@,
        "2"@,
        "3"@,
        "5"@,
        "8"@,
        "13"@,
        "21"@,
        "34"@,
        "55"@,
        "89"@,
        "\u{221e}"@,
        "?"@,
        "\u{2615}"@,
    ]
}

/// A room's deck: created once at room creation, immutable thereafter.
#[derive(Debug)]
pub struct Deck {
    pub id: u128,
    pub cards: Vec<String>,
}

impl View for Deck {
    type V = DeckV;

    open spec fn view(&self) -> DeckV {
        DeckV { id: self.id, cards: self.cards@.map_values(|c: String| c@) }
    }
}

impl Clone for Deck {
    fn clone(&self) -> (r: Self)
        ensures
            r@ == self@,
    {
        let cards = self.cards.clone();
        proof {
            assert(cards@ =~= self.cards@);
            assert(cards@.map_values(|c: String| c@) =~= self.cards@.map_values(|c: String| c@));
        }
        Deck { id: self.id, cards }
    }
}

impl Deck {
    /// A fresh deck holding the standard card catalog.
    pub fn new() -> (d: Deck)
        ensures
            d@.cards == standard_cards(),
    {
        let mut cards: Vec<String> = Vec::new();
        cards.push(String::from_str("0"));
        cards.push(String::from_str("1"));
        cards.push(String::from_str("2"));
        cards.push(String::from_str("3"));
        cards.push(String::from_str("5"));
        cards.push(String::from_str("8"));
        cards.push(String::from_str("13"));
        cards.push(String::from_str("21"));
        cards.push(String::from_str("34"));
        cards.push(String::from_str("55"));
        cards.push(String::from_str("89"));
        cards.push(String::from_str("\u{221e}"));
        cards.push(String::from_str("?"));
        cards.push(String::from_str("\u{2615}"));
        proof {
            assert(cards@.map_values(|c: String| c@) =~= standard_cards());
        }
        Deck { id: fresh_id(), cards }
    }
}

/// One isolated estimation session: membership, deck, and game state.
#[derive(Debug)]
pub struct Room {
    pub id: u128,
    pub name: Option<String>,
    pub deck: Deck,
    pub users: Vec<User>,
    pub game: Game,
    pub is_game_over: bool,
}

impl View for Room {
    type V = RoomV;

    open spec fn view(&self) -> RoomV {
        RoomV {
            id: self.id,
            name: opt_str_view(self.name),
            deck: self.deck@,
            users: self.users@.map_values(|u: User| u@),
            game: self.game@,
            is_game_over: self.is_game_over,
        }
    }
}

impl Clone for Room {
    fn clone(&self) -> (r: Self)
        ensures
            r@ == self@,
    {
        let name = self.name.clone();
        let users = self.users.clone();
        proof {
            if self.name is Some {
                assert(name == self.name);
            }
            assert(users@ =~= self.users@);
            assert(users@.map_values(|u: User| u@) =~= self.users@.map_values(|u: User| u@));
        }
        Room {
            id: self.id,
            name,
            deck: self.deck.clone(),
            users,
            game: self.game.clone(),
            is_game_over: self.is_game_over,
        }
    }
}

impl Room {
    /// A fresh room: new identifiers, standard deck, no members, an empty
    /// game, votes accepted.
    pub fn new(name: Option<String>) -> (r: Room)
        ensures
            r@.name == opt_str_view(name),
            r@.deck.cards == standard_cards(),
            r@.users == Seq::<UserV>::empty(),
            r@.game.table == Seq::<UserCardV>::empty(),
            !r@.is_game_over,
            r@.wf(),
    {
        let r = Room {
            id: fresh_id(),
            name,
            deck: Deck::new(),
            users: Vec::new(),
            game: Game::new(),
            is_game_over: false,
        };
        proof {
            assert(r@.users =~= Seq::<UserV>::empty());
        }
        r
    }

    /// Whether `user_id` is a member of this room.
    pub fn is_user_exist(&self, user_id: u128) -> (b: bool)
        ensures
            b == self@.has_user(user_id),
    {
        let n = self.users.len();
        let mut i: usize = 0;
        while i < n
            invariant
                i <= n,
                n == self.users.len(),
                forall|j: int| 0 <= j < i ==> self@.users[j].id != user_id,
            decreases n - i,
        {
            if self.users[i].id == user_id {
                assert(self@.users[i as int].id == user_id);
                return true;
            }
            i += 1;
        }
        false
    }

    /// Replace the username of the member `user_id`, wherever it occurs.
    pub fn edit_user(&mut self, user_id: u128, username: String)
        ensures
            final(self)@ == old(self)@.rename_user(user_id, username@),
    {
        let n = self.users.len();
        let mut renamed: Vec<User> = Vec::new();
        let mut i: usize = 0;
        while i < n
            invariant
                i <= n,
                n == self.users.len(),
                *self == *old(self),
                renamed@.len() == i,
                forall|j: int|
                    0 <= j < i ==> (#[trigger] renamed@[j])@ == (if old(self)@.users[j].id
                        == user_id {
                        UserV { id: old(self)@.users[j].id, username: username@ }
                    } else {
                        old(self)@.users[j]
                    }),
            decreases n - i,
        {
            if self.users[i].id == user_id {
                renamed.push(User { id: user_id, username: username.clone() });
            } else {
                renamed.push(self.users[i].clone());
            }
            i += 1;
        }
        self.users = renamed;
        proof {
            assert(self@.users =~= old(self)@.rename_user(user_id, username@).users);
            assert(self@ =~= old(self)@.rename_user(user_id, username@));
        }
    }

    /// Remove the member `user_id`.  A vote already on the table stays.
    pub fn remove_user(&mut self, user_id: u128)
        ensures
            final(self)@ == old(self)@.drop_user(user_id),
    {
        let n = self.users.len();
        let mut kept: Vec<User> = Vec::new();
        let mut i: usize = 0;
        proof {
            assert(kept@.map_values(|u: User| u@) =~= old(self)@.users.take(0).filter(
                |u: UserV| u.id != user_id,
            ));
        }
        while i < n
            invariant
                i <= n,
                n == self.users.len(),
                *self == *old(self),
                kept@.map_values(|u: User| u@) =~= old(self)@.users.take(i as int).filter(
                    |u: UserV| u.id != user_id,
                ),
            decreases n - i,
        {
            proof {
                let pred = |u: UserV| u.id != user_id;
                let prefix = old(self)@.users.take(i as int);
                let elem = old(self)@.users[i as int];
                assert(old(self)@.users.take(i + 1) =~= prefix.push(elem));
                prefix.lemma_filter_push(elem, pred);
            }
            if self.users[i].id != user_id {
                kept.push(self.users[i].clone());
                assert(kept@.map_values(|u: User| u@) =~= old(self)@.users.take(i + 1).filter(
                    |u: UserV| u.id != user_id,
                ));
            } else {
                assert(kept@.map_values(|u: User| u@) =~= old(self)@.users.take(i + 1).filter(
                    |u: UserV| u.id != user_id,
                ));
            }
            i += 1;
        }
        proof {
            assert(old(self)@.users.take(n as int) =~= old(self)@.users);
        }
        self.users = kept;
        proof {
            assert(self@ =~= old(self)@.drop_user(user_id));
        }
    }

    /// An independently owned deep copy of this room, safe to hand across
    /// component boundaries.
    pub fn get_room(&self) -> (r: Room)
        ensures
            r@ == self@,
    {
        self.clone()
    }
}

} // verus!
