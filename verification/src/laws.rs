//! Laws of the room model: properties that relate several operations,
//! stated over the abstract transitions of [`crate::model`] and proved once
//! and for all.

use vstd::prelude::*;

use crate::model::{
    lemma_join_wf, lemma_store_index_of, lemma_store_update_wf, store_has, store_index, store_wf,
    table_pick, users_unique, votes_of, RoomV, UserCardV, UserV,
};

verus! {

/// A filter that keeps every element returns the sequence unchanged.
proof fn lemma_filter_all<A>(s: Seq<A>, pred: spec_fn(A) -> bool)
    requires
        forall|i: int| 0 <= i < s.len() ==> pred(#[trigger] s[i]),
    ensures
        s.filter(pred) == s,
    decreases s.len(),
{
    reveal(Seq::filter);
    if s.len() != 0 {
        let d = s.drop_last();
        lemma_filter_all(d, pred);
        assert(s.filter(pred) =~= s);
    }
}

/// A filter that keeps no element returns the empty sequence.
proof fn lemma_filter_none<A>(s: Seq<A>, pred: spec_fn(A) -> bool)
    requires
        forall|i: int| 0 <= i < s.len() ==> !pred(#[trigger] s[i]),
    ensures
        s.filter(pred) == Seq::<A>::empty(),
    decreases s.len(),
{
    reveal(Seq::filter);
    if s.len() != 0 {
        lemma_filter_none(s.drop_last(), pred);
    }
}

/// A second pick by the same user replaces the first: however a user's vote
/// is changed before the reveal, the room's table holds exactly one card
/// for that user, carrying the latest value.
pub proof fn lemma_second_pick_replaces_first(r: RoomV, user_id: u128, c: Seq<char>, c2: Seq<char>)
    requires
        r.wf(),
    ensures
        votes_of(r.pick(user_id, c).pick(user_id, c2).game.table, user_id) == seq![
            UserCardV { user_id, card: Some(c2) },
        ],
{
    broadcast use vstd::seq_lib::group_filter_ensures;

    let keep = |uc: UserCardV| uc.user_id != user_id;
    let mine = |uc: UserCardV| uc.user_id == user_id;
    let t = r.game.table;
    let x1 = UserCardV { user_id, card: Some(c) };
    let x2 = UserCardV { user_id, card: Some(c2) };
    let t1 = table_pick(t, user_id, c);
    let t2 = table_pick(t1, user_id, c2);

    t.filter(keep).lemma_filter_push(x1, keep);
    assert(t1.filter(keep) == t.filter(keep).filter(keep));
    lemma_filter_all(t.filter(keep), keep);
    assert(t2 == t.filter(keep).push(x2));

    t.filter(keep).lemma_filter_push(x2, mine);
    lemma_filter_none(t.filter(keep), mine);
    assert(votes_of(t2, user_id) =~= seq![x2]);
}

/// Once the cards of a room are shown, the room is frozen: the store still
/// holds it at the same position, its table is untouched, and its
/// `is_game_over` flag now refuses every further pick until a reset.
pub proof fn lemma_pick_after_show_fails(s: Seq<RoomV>, room_id: u128)
    requires
        store_wf(s),
        store_has(s, room_id),
    ensures
        ({
            let i = store_index(s, room_id);
            let s2 = s.update(i, s[i].reveal_cards());
            &&& store_wf(s2)
            &&& store_has(s2, room_id)
            &&& store_index(s2, room_id) == i
            &&& s2[i].is_game_over
            &&& s2[i].game.table == s[i].game.table
        }),
{
    let i = store_index(s, room_id);
    let s2 = s.update(i, s[i].reveal_cards());
    lemma_store_update_wf(s, i, s[i].reveal_cards());
    lemma_store_index_of(s2, room_id, i);
}

/// Joining twice with the same user changes nothing the second time, and
/// the room's membership holds exactly one entry for that user.
pub proof fn lemma_join_twice_idempotent(r: RoomV, u: UserV)
    requires
        r.wf(),
    ensures
        r.join(u).join(u) == r.join(u),
        r.join(u).users.filter(|x: UserV| x.id == u.id).len() == 1,
{
    lemma_join_wf(r, u);
    lemma_members_once(r.join(u).users, u.id);
}

/// In a duplicate-free membership that contains `user_id`, exactly one
/// entry carries it.
proof fn lemma_members_once(users: Seq<UserV>, user_id: u128)
    requires
        users_unique(users),
        exists|i: int| 0 <= i < users.len() && users[i].id == user_id,
    ensures
        users.filter(|x: UserV| x.id == user_id).len() == 1,
    decreases users.len(),
{
    reveal(Seq::filter);
    let mine = |x: UserV| x.id == user_id;
    let d = users.drop_last();
    assert(users_unique(d));
    if users.last().id == user_id {
        assert(forall|i: int| 0 <= i < d.len() ==> !mine(#[trigger] d[i]));
        lemma_filter_none(d, mine);
    } else {
        let w = choose|i: int| 0 <= i < users.len() && users[i].id == user_id;
        assert(d[w].id == user_id);
        lemma_members_once(d, user_id);
    }
}

} // verus!
