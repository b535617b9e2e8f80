//! The pure mutation logic of the retro board.
//!
//! Every state-changing operation is, at its core, a function from one
//! retro aggregate to the next.  The functions here perform exactly that
//! step on an aggregate held in memory; they know nothing of persistence
//! or of the event bus.  The coordinator applies them against the
//! in-memory backend, and an adapter for a remote document store can
//! apply the very same functions between its read and its write.
//!
//! Each operation has a mathematical counterpart over the view types
//! (`enter_participants`, `add_card_to`, ...); the executable function's
//! contract says it computes that counterpart, and the laws in
//! `laws` are proved about the counterparts alone.

use vstd::prelude::*;

use crate::errors::ServiceError;
use crate::model::{Card, CardV, Id, Lane, LaneV, Retro, RetroParticipant, RetroStep, RetroV};

verus! {

broadcast use crate::model::lemma_cards_view_len, crate::model::lemma_cards_view_index,
    crate::model::lemma_cards_view_push, crate::model::lemma_cards_view_update;

// ---------------------------------------------------------------------
// Participants
// ---------------------------------------------------------------------

/// Whether `user` appears in the participant list.
pub open spec fn has_participant(ps: Seq<RetroParticipant>, user: Id) -> bool {
    exists|i: int| 0 <= i < ps.len() && (#[trigger] ps[i]).user == user
}

/// No user appears twice in the participant list.
pub open spec fn participants_distinct(ps: Seq<RetroParticipant>) -> bool {
    forall|i: int, j: int|
        0 <= i < j < ps.len() ==> (#[trigger] ps[i]).user != (#[trigger] ps[j]).user
}

/// How often `user` appears in the participant list.
pub open spec fn participant_count(ps: Seq<RetroParticipant>, user: Id) -> nat
    decreases ps.len(),
{
    if ps.len() == 0 {
        0
    } else {
        participant_count(ps.drop_last(), user) + if ps.last().user == user {
            1nat
        } else {
            0nat
        }
    }
}

/// The participant list after `user` entered: unchanged when already a
/// member, extended by one membership record otherwise.
pub open spec fn enter_participants(ps: Seq<RetroParticipant>, retro_id: Id, user: Id) -> Seq<
    RetroParticipant,
> {
    if has_participant(ps, user) {
        ps
    } else {
        ps.push((RetroParticipant { user, retro_id }))
    }
}

/// The predicate that keeps every membership record of other users.
pub open spec fn keeps_other_members(user: Id) -> spec_fn(RetroParticipant) -> bool {
    |p: RetroParticipant| p.user != user
}

/// The participant list after `user` left: every record of that user is
/// removed, the order of the rest is kept.
pub open spec fn leave_participants(ps: Seq<RetroParticipant>, user: Id) -> Seq<
    RetroParticipant,
> {
    ps.filter(keeps_other_members(user))
}

// ---------------------------------------------------------------------
// Well-formedness of an aggregate
// ---------------------------------------------------------------------

/// Position `(i, j)` denotes a card: lane `i` exists and holds a card
/// at index `j`.
pub open spec fn card_pos_valid(r: RetroV, i: int, j: int) -> bool {
    0 <= i < r.lanes.len() && 0 <= j < r.lanes[i].cards.len()
}

/// No lane id appears twice.
pub open spec fn lanes_distinct(lanes: Seq<LaneV>) -> bool {
    forall|i: int, j: int|
        0 <= i < j < lanes.len() ==> (#[trigger] lanes[i]).id != (#[trigger] lanes[j]).id
}

/// No card id appears twice across all lanes.
pub open spec fn cards_distinct(r: RetroV) -> bool {
    forall|i: int, j: int, k: int, l: int|
        #![trigger r.lanes[i].cards[j], r.lanes[k].cards[l]]
        card_pos_valid(r, i, j) && card_pos_valid(r, k, l) && (i != k || j != l)
            ==> r.lanes[i].cards[j].id != r.lanes[k].cards[l].id
}

/// Internal consistency of a retro aggregate: lane ids, card ids and
/// participant users are unique, and every owned record points back at
/// this retro.  Nested subcards are carried as data and not constrained;
/// no mutation of the observed operation set ever creates one.
pub open spec fn retro_wf(r: RetroV) -> bool {
    &&& lanes_distinct(r.lanes)
    &&& participants_distinct(r.participants)
    &&& forall|i: int|
        0 <= i < r.participants.len() ==> (#[trigger] r.participants[i]).retro_id == r.id
    &&& cards_distinct(r)
    &&& forall|i: int, j: int|
        card_pos_valid(r, i, j) ==> (#[trigger] r.lanes[i].cards[j]).retro_id == r.id
            && r.lanes[i].cards[j].votes.no_duplicates()
}

/// Every id owned by the aggregate (its own, its lanes', its cards') is
/// below `bound`; ids at or above `bound` are fresh for it.
pub open spec fn retro_ids_below(r: RetroV, bound: Id) -> bool {
    &&& r.id < bound
    &&& forall|i: int| 0 <= i < r.lanes.len() ==> (#[trigger] r.lanes[i]).id < bound
    &&& forall|i: int, j: int|
        card_pos_valid(r, i, j) ==> (#[trigger] r.lanes[i].cards[j]).id < bound
}

// ---------------------------------------------------------------------
// Lane and card lookup
// ---------------------------------------------------------------------

/// Whether the retro has a lane with the given id.
pub open spec fn has_lane(r: RetroV, lane_id: Id) -> bool {
    exists|i: int| 0 <= i < r.lanes.len() && (#[trigger] r.lanes[i]).id == lane_id
}

/// The index of the lane with the given id; meaningful when `has_lane`
/// holds and the lane ids are distinct.
pub open spec fn lane_index(r: RetroV, lane_id: Id) -> int {
    choose|i: int| 0 <= i < r.lanes.len() && (#[trigger] r.lanes[i]).id == lane_id
}

/// Whether some lane of the retro holds a card with the given id.
pub open spec fn has_card(r: RetroV, card_id: Id) -> bool {
    exists|i: int, j: int|
        card_pos_valid(r, i, j) && (#[trigger] r.lanes[i].cards[j]).id == card_id
}

/// The position of the card with the given id; meaningful when
/// `has_card` holds and the card ids are distinct.
pub open spec fn card_pos(r: RetroV, card_id: Id) -> (int, int) {
    choose|i: int, j: int|
        card_pos_valid(r, i, j) && (#[trigger] r.lanes[i].cards[j]).id == card_id
}

/// The card with the given id.
pub open spec fn card_at(r: RetroV, card_id: Id) -> CardV {
    r.lanes[card_pos(r, card_id).0].cards[card_pos(r, card_id).1]
}

// ---------------------------------------------------------------------
// Field replacement helpers
// ---------------------------------------------------------------------

/// `l` with its cards replaced.
pub open spec fn lane_with_cards(l: LaneV, cards: Seq<CardV>) -> LaneV {
    LaneV { id: l.id, title: l.title, cards, priority: l.priority }
}

/// `c` with its text replaced.
pub open spec fn card_with_text(c: CardV, text: Seq<char>) -> CardV {
    CardV {
        id: c.id,
        retro_id: c.retro_id,
        creator_id: c.creator_id,
        text,
        subcards: c.subcards,
        votes: c.votes,
    }
}

/// `c` with its votes replaced.
pub open spec fn card_with_votes(c: CardV, votes: Seq<Id>) -> CardV {
    CardV {
        id: c.id,
        retro_id: c.retro_id,
        creator_id: c.creator_id,
        text: c.text,
        subcards: c.subcards,
        votes,
    }
}

/// `r` with its lanes replaced.
pub open spec fn retro_with_lanes(r: RetroV, lanes: Seq<LaneV>) -> RetroV {
    RetroV {
        id: r.id,
        retro_name: r.retro_name,
        creator_id: r.creator_id,
        step: r.step,
        created_at: r.created_at,
        participants: r.participants,
        lanes,
    }
}

/// `r` with its participants replaced.
pub open spec fn retro_with_participants(r: RetroV, ps: Seq<RetroParticipant>) -> RetroV {
    RetroV {
        id: r.id,
        retro_name: r.retro_name,
        creator_id: r.creator_id,
        step: r.step,
        created_at: r.created_at,
        participants: ps,
        lanes: r.lanes,
    }
}

/// `r` with its step replaced.
pub open spec fn retro_with_step(r: RetroV, step: RetroStep) -> RetroV {
    RetroV {
        id: r.id,
        retro_name: r.retro_name,
        creator_id: r.creator_id,
        step,
        created_at: r.created_at,
        participants: r.participants,
        lanes: r.lanes,
    }
}

// ---------------------------------------------------------------------
// Mathematical mutations
// ---------------------------------------------------------------------

/// The retro after `user` entered.
pub open spec fn enter_retro_v(r: RetroV, user: Id) -> RetroV {
    retro_with_participants(r, enter_participants(r.participants, r.id, user))
}

/// The retro after `user` left.
pub open spec fn leave_retro_v(r: RetroV, user: Id) -> RetroV {
    retro_with_participants(r, leave_participants(r.participants, user))
}

/// The retro after `card` was appended to the lane `lane_id`;
/// meaningful when `has_lane` holds.
pub open spec fn add_card_to(r: RetroV, lane_id: Id, card: CardV) -> RetroV {
    let i = lane_index(r, lane_id);
    retro_with_lanes(
        r,
        r.lanes.update(i, lane_with_cards(r.lanes[i], r.lanes[i].cards.push(card))),
    )
}

/// The retro after the text of card `card_id` was replaced; meaningful
/// when `has_card` holds.
pub open spec fn edit_card_in(r: RetroV, card_id: Id, text: Seq<char>) -> RetroV {
    let i = card_pos(r, card_id).0;
    let j = card_pos(r, card_id).1;
    retro_with_lanes(
        r,
        r.lanes.update(
            i,
            lane_with_cards(
                r.lanes[i],
                r.lanes[i].cards.update(j, card_with_text(r.lanes[i].cards[j], text)),
            ),
        ),
    )
}

/// The predicate that keeps every vote not cast by `user`.
pub open spec fn keeps_other_votes(user: Id) -> spec_fn(Id) -> bool {
    |v: Id| v != user
}

/// The vote list after `user` toggled a vote on or off: a vote on adds
/// the user when absent, a vote off removes every record of the user.
pub open spec fn toggle_vote(votes: Seq<Id>, user: Id, vote: bool) -> Seq<Id> {
    if vote {
        if votes.contains(user) {
            votes
        } else {
            votes.push(user)
        }
    } else {
        votes.filter(keeps_other_votes(user))
    }
}

/// The retro after `user` toggled a vote on card `card_id`; meaningful
/// when `has_card` holds.
pub open spec fn vote_card_in(r: RetroV, card_id: Id, user: Id, vote: bool) -> RetroV {
    let i = card_pos(r, card_id).0;
    let j = card_pos(r, card_id).1;
    let c = r.lanes[i].cards[j];
    retro_with_lanes(
        r,
        r.lanes.update(
            i,
            lane_with_cards(
                r.lanes[i],
                r.lanes[i].cards.update(j, card_with_votes(c, toggle_vote(c.votes, user, vote))),
            ),
        ),
    )
}

// ---------------------------------------------------------------------
// Executable mutations
// ---------------------------------------------------------------------

/// Add `user` to the participants of `retro` unless already present.
/// Returns whether the list changed.
pub fn apply_enter_retro(retro: &mut Retro, user: Id) -> (changed: bool)
    ensures
        changed == !has_participant(old(retro)@.participants, user),
        final(retro)@ == enter_retro_v(old(retro)@, user),
{
    let n = retro.participants.len();
    let mut i: usize = 0;
    while i < n
        invariant
            i <= n,
            n == retro.participants.len(),
            *retro == *old(retro),
            forall|k: int| 0 <= k < i ==> (#[trigger] retro.participants@[k]).user != user,
        decreases n - i,
    {
        if retro.participants[i].user == user {
            proof {
                assert(has_participant(retro@.participants, user));
                assert(retro@ =~= enter_retro_v(old(retro)@, user));
            }
            return false;
        }
        i += 1;
    }
    let retro_id = retro.id;
    retro.participants.push(RetroParticipant { user, retro_id });
    proof {
        assert(!has_participant(old(retro)@.participants, user));
        assert(retro@ =~= enter_retro_v(old(retro)@, user));
    }
    true
}

/// Remove every membership record of `user` from `retro`.
pub fn apply_leave_retro(retro: &mut Retro, user: Id)
    ensures
        final(retro)@ == leave_retro_v(old(retro)@, user),
{
    let ghost ps = retro.participants@;
    let mut kept: Vec<RetroParticipant> = Vec::new();
    let mut i: usize = 0;
    let n = retro.participants.len();
    while i < n
        invariant
            i <= n,
            n == retro.participants.len(),
            *retro == *old(retro),
            ps == retro.participants@,
            kept@ == ps.subrange(0, i as int).filter(keeps_other_members(user)),
        decreases n - i,
    {
        let p = retro.participants[i];
        if p.user != user {
            kept.push(p);
        }
        proof {
            reveal(Seq::filter);
            let prefix = ps.subrange(0, (i + 1) as int);
            assert(prefix.drop_last() =~= ps.subrange(0, i as int));
            assert(prefix.last() == ps[i as int]);
        }
        i += 1;
    }
    proof {
        assert(ps.subrange(0, n as int) =~= ps);
    }
    retro.participants = kept;
    proof {
        assert(retro@ =~= leave_retro_v(old(retro)@, user));
    }
}

/// With distinct lane ids, `lane_index` names the one position of a
/// lane.
pub proof fn lemma_lane_index_of(r: RetroV, i: int)
    requires
        lanes_distinct(r.lanes),
        0 <= i < r.lanes.len(),
    ensures
        has_lane(r, r.lanes[i].id),
        lane_index(r, r.lanes[i].id) == i,
{
    let id = r.lanes[i].id;
    assert(has_lane(r, id));
    let li = lane_index(r, id);
    assert(0 <= li < r.lanes.len() && r.lanes[li].id == id);
    if li < i {
        assert(r.lanes[li].id != r.lanes[i].id);
    } else if li > i {
        assert(r.lanes[i].id != r.lanes[li].id);
    }
}

/// With distinct card ids, `card_pos` names the one position of a card.
pub proof fn lemma_card_pos_of(r: RetroV, i: int, j: int)
    requires
        cards_distinct(r),
        card_pos_valid(r, i, j),
    ensures
        has_card(r, r.lanes[i].cards[j].id),
        card_pos(r, r.lanes[i].cards[j].id) == (i, j),
{
    let id = r.lanes[i].cards[j].id;
    assert(has_card(r, id));
    let p = card_pos(r, id);
    assert(card_pos_valid(r, p.0, p.1) && r.lanes[p.0].cards[p.1].id == id);
    if p.0 != i || p.1 != j {
        assert(r.lanes[p.0].cards[p.1].id != r.lanes[i].cards[j].id);
    }
}

/// First lane with the given id, if any.
fn find_lane_idx(retro: &Retro, lane_id: Id) -> (res: Option<usize>)
    ensures
        match res {
            Some(i) => 0 <= i < retro@.lanes.len() && retro@.lanes[i as int].id == lane_id,
            None => !has_lane(retro@, lane_id),
        },
{
    let n = retro.lanes.len();
    let mut i: usize = 0;
    while i < n
        invariant
            i <= n,
            n == retro.lanes.len(),
            forall|k: int| 0 <= k < i ==> (#[trigger] retro@.lanes[k]).id != lane_id,
        decreases n - i,
    {
        if retro.lanes[i].id == lane_id {
            return Some(i);
        }
        i += 1;
    }
    None
}

/// Position of the card with the given id, scanning lanes in order.
fn find_card_pos(retro: &Retro, card_id: Id) -> (res: Option<(usize, usize)>)
    ensures
        match res {
            Some(p) => card_pos_valid(retro@, p.0 as int, p.1 as int) && retro@.lanes[p.0 as int].cards[p.1 as int].id == card_id,
            None => !has_card(retro@, card_id),
        },
{
    let nl = retro.lanes.len();
    let mut li: usize = 0;
    while li < nl
        invariant
            li <= nl,
            nl == retro.lanes.len(),
            forall|a: int, b: int|
                #![trigger retro@.lanes[a].cards[b]]
                0 <= a < li && 0 <= b < retro@.lanes[a].cards.len()
                    ==> retro@.lanes[a].cards[b].id != card_id,
        decreases nl - li,
    {
        let nc = retro.lanes[li].cards.len();
        let mut ci: usize = 0;
        while ci < nc
            invariant
                ci <= nc,
                li < nl,
                nl == retro.lanes.len(),
                nc == retro.lanes@[li as int].cards.len(),
                forall|a: int, b: int|
                    #![trigger retro@.lanes[a].cards[b]]
                    0 <= a < li && 0 <= b < retro@.lanes[a].cards.len()
                        ==> retro@.lanes[a].cards[b].id != card_id,
                forall|b: int|
                    0 <= b < ci ==> (#[trigger] retro@.lanes[li as int].cards[b]).id != card_id,
            decreases nc - ci,
        {
            if retro.lanes[li].cards[ci].id == card_id {
                return Some((li, ci));
            }
            ci += 1;
        }
        li += 1;
    }
    None
}

/// The lane with the given id, if the retro has one; the resolver that
/// answers which lane an event's `lane_id` names.
pub fn find_lane<'a>(retro: &'a Retro, lane_id: Id) -> (res: Option<&'a Lane>)
    requires
        lanes_distinct(retro@.lanes),
    ensures
        res is Some <==> has_lane(retro@, lane_id),
        res matches Some(l) ==> l@ == retro@.lanes[lane_index(retro@, lane_id)],
{
    match find_lane_idx(retro, lane_id) {
        Some(i) => {
            proof {
                lemma_lane_index_of(retro@, i as int);
            }
            Some(&retro.lanes[i])
        },
        None => None,
    }
}

/// Append `card` to the lane `lane_id` of `retro`.  Returns whether the
/// lane exists; when it does not, the retro is left untouched.
pub fn apply_add_card(retro: &mut Retro, lane_id: Id, card: Card) -> (added: bool)
    requires
        lanes_distinct(old(retro)@.lanes),
    ensures
        added == has_lane(old(retro)@, lane_id),
        added ==> final(retro)@ == add_card_to(old(retro)@, lane_id, card@),
        !added ==> *final(retro) == *old(retro),
{
    let found = find_lane_idx(retro, lane_id);
    match found {
        None => false,
        Some(i) => {
            let ghost r0 = retro@;
            let ghost li = i as int;
            proof {
                lemma_lane_index_of(r0, li);
            }
            let mut lane = retro.lanes.remove(i);
            let ghost lane0 = lane;
            lane.cards.push(card);
            retro.lanes.insert(i, lane);
            proof {
                old(retro).lanes@.remove_ensures(li);
                old(retro).lanes@.remove(li).insert_ensures(li, retro.lanes@[li]);
                assert(retro.lanes@ =~= old(retro).lanes@.update(li, retro.lanes@[li]));
                assert(retro.lanes@[li].cards@ == lane0.cards@.push(card));
                assert(retro@.lanes =~= r0.lanes.update(
                    li,
                    lane_with_cards(r0.lanes[li], r0.lanes[li].cards.push(card@)),
                ));
                assert(retro@ =~= add_card_to(r0, lane_id, card@));
            }
            true
        },
    }
}

/// Replace the text of card `card_id` in `retro`, returning a copy of
/// the updated card and the id of its lane; `None` when no lane holds
/// such a card, in which case the retro is left untouched.
pub fn apply_edit_card(retro: &mut Retro, card_id: Id, text: String) -> (res: Option<(Card, Id)>)
    requires
        cards_distinct(old(retro)@),
    ensures
        res is Some <==> has_card(old(retro)@, card_id),
        res matches Some(p) ==> final(retro)@ == edit_card_in(old(retro)@, card_id, text@) && p.0@
            == card_with_text(card_at(old(retro)@, card_id), text@) && p.1 == old(retro)@.lanes[
            card_pos(old(retro)@, card_id).0].id,
        res is None ==> *final(retro) == *old(retro),
{
    let found = find_card_pos(retro, card_id);
    match found {
        None => None,
        Some((li, ci)) => {
            let ghost r0 = retro@;
            let ghost i = li as int;
            let ghost j = ci as int;
            proof {
                lemma_card_pos_of(r0, i, j);
            }
            let mut lane = retro.lanes.remove(li);
            let ghost lane0 = lane;
            let owning_lane = lane.id;
            let mut c = lane.cards.remove(ci);
            c.text = text;
            let ret = c.clone();
            lane.cards.insert(ci, c);
            retro.lanes.insert(li, lane);
            proof {
                lane0.cards@.remove_ensures(j);
                lane0.cards@.remove(j).insert_ensures(j, retro.lanes@[i].cards@[j]);
                assert(retro.lanes@[i].cards@ =~= lane0.cards@.update(j, retro.lanes@[i].cards@[j]));
                old(retro).lanes@.remove_ensures(i);
                old(retro).lanes@.remove(i).insert_ensures(i, retro.lanes@[i]);
                assert(retro.lanes@ =~= old(retro).lanes@.update(i, retro.lanes@[i]));
                assert(retro@.lanes[i].cards =~= r0.lanes[i].cards.update(
                    j,
                    card_with_text(r0.lanes[i].cards[j], text@),
                ));
                assert(retro@.lanes =~= r0.lanes.update(
                    i,
                    lane_with_cards(
                        r0.lanes[i],
                        r0.lanes[i].cards.update(j, card_with_text(r0.lanes[i].cards[j], text@)),
                    ),
                ));
                assert(retro@ =~= edit_card_in(r0, card_id, text@));
            }
            Some((ret, owning_lane))
        },
    }
}

/// Set or clear `user`'s vote on card `card_id`.  Only the creator of a
/// card may vote on it; any other user is refused.  Returns a copy of
/// the updated card and the id of its lane, or the error naming why
/// nothing changed.
pub fn apply_vote_card(retro: &mut Retro, card_id: Id, user: Id, vote: bool) -> (res: Result<
    (Card, Id),
    ServiceError,
>)
    requires
        cards_distinct(old(retro)@),
    ensures
        res is Ok <==> has_card(old(retro)@, card_id) && card_at(old(retro)@, card_id).creator_id
            == user,
        res matches Ok(p) ==> final(retro)@ == vote_card_in(old(retro)@, card_id, user, vote)
            && p.0@ == card_with_votes(
            card_at(old(retro)@, card_id),
            toggle_vote(card_at(old(retro)@, card_id).votes, user, vote),
        ) && p.1 == old(retro)@.lanes[card_pos(old(retro)@, card_id).0].id,
        res is Err ==> *final(retro) == *old(retro),
        res matches Err(e) ==> (e == ServiceError::NotFound <==> !has_card(
            old(retro)@,
            card_id,
        )) && (e == ServiceError::Unauthorized <==> has_card(old(retro)@, card_id) && card_at(
            old(retro)@,
            card_id,
        ).creator_id != user),
{
    let found = find_card_pos(retro, card_id);
    match found {
        None => Err(ServiceError::NotFound),
        Some((li, ci)) => {
            let ghost r0 = retro@;
            let ghost i = li as int;
            let ghost j = ci as int;
            proof {
                lemma_card_pos_of(r0, i, j);
            }
            if retro.lanes[li].cards[ci].creator_id != user {
                return Err(ServiceError::Unauthorized);
            }
            let mut lane = retro.lanes.remove(li);
            let ghost lane0 = lane;
            let owning_lane = lane.id;
            let mut c = lane.cards.remove(ci);
            let ghost c0 = c;
            if vote {
                let nv = c.votes.len();
                let mut k: usize = 0;
                let mut present = false;
                while k < nv && !present
                    invariant
                        k <= nv,
                        nv == c.votes.len(),
                        c == c0,
                        present ==> c.votes@.contains(user),
                        !present ==> forall|q: int| 0 <= q < k ==> c.votes@[q] != user,
                    decreases nv - k + if present { 0int } else { 1int },
                {
                    if c.votes[k] == user {
                        present = true;
                    } else {
                        k += 1;
                    }
                }
                if !present {
                    proof {
                        assert(forall|q: int|
                            0 <= q < c0.votes@.len() ==> c0.votes@[q] != user);
                        assert(!c0.votes@.contains(user));
                    }
                    c.votes.push(user);
                }
                proof {
                    assert(c.votes@ == toggle_vote(c0.votes@, user, vote));
                }
            } else {
                let ghost vs = c.votes@;
                let mut kept: Vec<Id> = Vec::new();
                let nv = c.votes.len();
                let mut k: usize = 0;
                while k < nv
                    invariant
                        k <= nv,
                        nv == c.votes.len(),
                        c == c0,
                        vs == c.votes@,
                        kept@ == vs.subrange(0, k as int).filter(keeps_other_votes(user)),
                    decreases nv - k,
                {
                    let v = c.votes[k];
                    if v != user {
                        kept.push(v);
                    }
                    proof {
                        reveal(Seq::filter);
                        let prefix = vs.subrange(0, (k + 1) as int);
                        assert(prefix.drop_last() =~= vs.subrange(0, k as int));
                        assert(prefix.last() == vs[k as int]);
                    }
                    k += 1;
                }
                c.votes = kept;
                proof {
                    assert(vs.subrange(0, nv as int) =~= vs);
                    assert(c.votes@ == toggle_vote(c0.votes@, user, vote));
                }
            }
            let ret = c.clone();
            lane.cards.insert(ci, c);
            retro.lanes.insert(li, lane);
            proof {
                lane0.cards@.remove_ensures(j);
                lane0.cards@.remove(j).insert_ensures(j, retro.lanes@[i].cards@[j]);
                assert(retro.lanes@[i].cards@ =~= lane0.cards@.update(j, retro.lanes@[i].cards@[j]));
                old(retro).lanes@.remove_ensures(i);
                old(retro).lanes@.remove(i).insert_ensures(i, retro.lanes@[i]);
                assert(retro.lanes@ =~= old(retro).lanes@.update(i, retro.lanes@[i]));
                assert(retro@.lanes[i].cards =~= r0.lanes[i].cards.update(
                    j,
                    card_with_votes(r0.lanes[i].cards[j], toggle_vote(r0.lanes[i].cards[j].votes, user, vote)),
                ));
                assert(retro@.lanes =~= r0.lanes.update(
                    i,
                    lane_with_cards(
                        r0.lanes[i],
                        r0.lanes[i].cards.update(
                            j,
                            card_with_votes(
                                r0.lanes[i].cards[j],
                                toggle_vote(r0.lanes[i].cards[j].votes, user, vote),
                            ),
                        ),
                    ),
                ));
                assert(retro@ =~= vote_card_in(r0, card_id, user, vote));
            }
            Ok((ret, owning_lane))
        },
    }
}

/// Overwrite the workflow step of `retro`.  Any step may be set: no
/// transition table is enforced, a deliberate permissiveness.
pub fn apply_set_step(retro: &mut Retro, step: RetroStep)
    ensures
        final(retro)@ == retro_with_step(old(retro)@, step),
{
    retro.step = step;
    proof {
        assert(retro@ =~= retro_with_step(old(retro)@, step));
    }
}

/// A copy of a participant list.
pub fn clone_participants(ps: &Vec<RetroParticipant>) -> (res: Vec<RetroParticipant>)
    ensures
        res@ == ps@,
{
    let mut out: Vec<RetroParticipant> = Vec::new();
    let mut i: usize = 0;
    let n = ps.len();
    while i < n
        invariant
            i <= n,
            n == ps.len(),
            out@ == ps@.subrange(0, i as int),
        decreases n - i,
    {
        out.push(ps[i]);
        i += 1;
    }
    proof {
        assert(out@ =~= ps@);
    }
    out
}

// ---------------------------------------------------------------------
// Preservation of well-formedness
// ---------------------------------------------------------------------

/// A bound on the owned ids stays a bound when raised.
pub proof fn lemma_ids_below_mono(r: RetroV, b1: Id, b2: Id)
    requires
        retro_ids_below(r, b1),
        b1 <= b2,
    ensures
        retro_ids_below(r, b2),
{
}

/// In a duplicate-free participant list, a member appears exactly once
/// and a non-member not at all.
pub proof fn lemma_participant_count_distinct(ps: Seq<RetroParticipant>, user: Id)
    requires
        participants_distinct(ps),
    ensures
        participant_count(ps, user) == if has_participant(ps, user) {
            1nat
        } else {
            0nat
        },
    decreases ps.len(),
{
    if ps.len() > 0 {
        let pre = ps.drop_last();
        assert(participants_distinct(pre)) by {
            assert(forall|i: int| 0 <= i < pre.len() ==> pre[i] == ps[i]);
        }
        lemma_participant_count_distinct(pre, user);
        if ps.last().user == user {
            assert(has_participant(ps, user)) by {
                assert(ps[ps.len() - 1].user == user);
            }
            assert(!has_participant(pre, user)) by {
                if has_participant(pre, user) {
                    let q = choose|q: int| 0 <= q < pre.len() && pre[q].user == user;
                    assert(ps[q].user != ps[ps.len() - 1].user);
                }
            }
        } else {
            assert(has_participant(pre, user) == has_participant(ps, user)) by {
                if has_participant(ps, user) {
                    let q = choose|q: int| 0 <= q < ps.len() && ps[q].user == user;
                    assert(pre[q].user == user);
                }
                if has_participant(pre, user) {
                    let q = choose|q: int| 0 <= q < pre.len() && pre[q].user == user;
                    assert(ps[q].user == user);
                }
            }
        }
    }
}

/// Leaving keeps the participant list duplicate-free, keeps only
/// records of other users, and invents no record.
pub proof fn lemma_leave_participants_props(ps: Seq<RetroParticipant>, user: Id)
    requires
        participants_distinct(ps),
    ensures
        participants_distinct(leave_participants(ps, user)),
        forall|i: int|
            0 <= i < leave_participants(ps, user).len() ==> ps.contains(
                #[trigger] leave_participants(ps, user)[i],
            ) && leave_participants(ps, user)[i].user != user,
    decreases ps.len(),
{
    reveal(Seq::filter);
    let f = keeps_other_members(user);
    let out = ps.filter(f);
    if ps.len() > 0 {
        let pre = ps.drop_last();
        assert(participants_distinct(pre)) by {
            assert(forall|i: int| 0 <= i < pre.len() ==> pre[i] == ps[i]);
        }
        lemma_leave_participants_props(pre, user);
        let fpre = pre.filter(f);
        assert forall|i: int|
            0 <= i < out.len() implies ps.contains(#[trigger] out[i]) && out[i].user != user by {
            if i < fpre.len() {
                assert(fpre.contains(fpre[i]));
                let q = choose|q: int| 0 <= q < pre.len() && pre[q] == fpre[i];
                assert(ps[q] == out[i]);
            } else {
                assert(out[i] == ps.last());
                assert(ps[ps.len() - 1] == ps.last());
            }
        }
        assert forall|i: int, j: int|
            0 <= i < j < out.len() implies (#[trigger] out[i]).user != (#[trigger] out[j]).user by {
            if j < fpre.len() {
                assert(fpre[i].user != fpre[j].user);
            } else {
                assert(out[j] == ps.last());
                assert(fpre.contains(fpre[i]));
                let q = choose|q: int| 0 <= q < pre.len() && pre[q] == fpre[i];
                assert(ps[q].user != ps[ps.len() - 1].user);
            }
        }
    }
}

/// Toggling a vote keeps the vote list duplicate-free; afterwards the
/// user's vote is present exactly when it was switched on, and every
/// other user's vote is untouched.
pub proof fn lemma_toggle_vote_props(votes: Seq<Id>, user: Id, vote: bool)
    requires
        votes.no_duplicates(),
    ensures
        toggle_vote(votes, user, vote).no_duplicates(),
        toggle_vote(votes, user, vote).contains(user) == vote,
        forall|w: Id|
            w != user ==> #[trigger] toggle_vote(votes, user, vote).contains(w) == votes.contains(
                w,
            ),
{
    if vote {
        let out = toggle_vote(votes, user, vote);
        if !votes.contains(user) {
            assert(out == votes.push(user));
            assert(out[out.len() - 1] == user);
            assert forall|i: int, j: int|
                0 <= i < out.len() && 0 <= j < out.len() && i != j implies out[i] != out[j] by {
                if i < votes.len() && j < votes.len() {
                } else if j == votes.len() {
                    assert(votes.contains(votes[i]));
                } else {
                    assert(votes.contains(votes[j]));
                }
            }
            assert forall|w: Id| w != user implies #[trigger] out.contains(w) == votes.contains(
                w,
            ) by {
                if votes.contains(w) {
                    let q = choose|q: int| 0 <= q < votes.len() && votes[q] == w;
                    assert(out[q] == w);
                }
                if out.contains(w) {
                    let q = choose|q: int| 0 <= q < out.len() && out[q] == w;
                    assert(votes[q] == w);
                }
            }
        }
    } else {
        lemma_votes_filter_props(votes, user);
    }
}

/// Removing one user's votes by filtering keeps the list
/// duplicate-free, removes that user entirely, and keeps every other
/// vote.
proof fn lemma_votes_filter_props(votes: Seq<Id>, user: Id)
    requires
        votes.no_duplicates(),
    ensures
        votes.filter(keeps_other_votes(user)).no_duplicates(),
        !votes.filter(keeps_other_votes(user)).contains(user),
        forall|w: Id|
            w != user ==> #[trigger] votes.filter(keeps_other_votes(user)).contains(w)
                == votes.contains(w),
    decreases votes.len(),
{
    reveal(Seq::filter);
    let f = keeps_other_votes(user);
    let out = votes.filter(f);
    if votes.len() > 0 {
        let pre = votes.drop_last();
        assert(pre.no_duplicates()) by {
            assert(forall|i: int| 0 <= i < pre.len() ==> pre[i] == votes[i]);
        }
        lemma_votes_filter_props(pre, user);
        let fpre = pre.filter(f);
        assert forall|i: int| 0 <= i < out.len() implies votes.contains(#[trigger] out[i])
            && out[i] != user by {
            if i < fpre.len() {
                assert(fpre.contains(fpre[i]));
                let q = choose|q: int| 0 <= q < pre.len() && pre[q] == fpre[i];
                assert(votes[q] == out[i]);
            } else {
                assert(out[i] == votes.last());
                assert(votes[votes.len() - 1] == votes.last());
            }
        }
        assert forall|i: int, j: int|
            0 <= i < out.len() && 0 <= j < out.len() && i != j implies out[i] != out[j] by {
            let a = if i < j {
                i
            } else {
                j
            };
            let b = if i < j {
                j
            } else {
                i
            };
            if b < fpre.len() {
                assert(fpre[a] != fpre[b]);
            } else {
                assert(out[b] == votes.last());
                assert(fpre.contains(fpre[a]));
                let q = choose|q: int| 0 <= q < pre.len() && pre[q] == fpre[a];
                assert(votes[q] != votes[votes.len() - 1]);
            }
        }
        assert forall|w: Id| w != user implies #[trigger] out.contains(w) == votes.contains(
            w,
        ) by {
            if out.contains(w) {
                let q = choose|q: int| 0 <= q < out.len() && out[q] == w;
            }
            if votes.contains(w) {
                let q = choose|q: int| 0 <= q < votes.len() && votes[q] == w;
                if q < votes.len() - 1 {
                    assert(pre[q] == w);
                    assert(pre.contains(w));
                    assert(fpre.contains(w));
                    let s = choose|s: int| 0 <= s < fpre.len() && fpre[s] == w;
                    assert(out[s] == w);
                } else {
                    assert(votes.last() == w);
                    assert(out[out.len() - 1] == w);
                }
            }
        }
    }
}

/// Entering preserves the aggregate invariant.
pub proof fn lemma_enter_retro_wf(r: RetroV, user: Id)
    requires
        retro_wf(r),
    ensures
        retro_wf(enter_retro_v(r, user)),
{
    let r2 = enter_retro_v(r, user);
    if !has_participant(r.participants, user) {
        let ps = r.participants;
        let ps2 = r2.participants;
        assert(ps2 == ps.push((RetroParticipant { user, retro_id: r.id })));
        assert forall|i: int, j: int|
            0 <= i < j < ps2.len() implies (#[trigger] ps2[i]).user != (#[trigger] ps2[j]).user by {
            if j == ps.len() {
                assert(ps[i].user != user);
            }
        }
    }
}

/// Leaving preserves the aggregate invariant.
pub proof fn lemma_leave_retro_wf(r: RetroV, user: Id)
    requires
        retro_wf(r),
    ensures
        retro_wf(leave_retro_v(r, user)),
{
    lemma_leave_participants_props(r.participants, user);
    let ps2 = leave_participants(r.participants, user);
    assert forall|i: int| 0 <= i < ps2.len() implies (#[trigger] ps2[i]).retro_id == r.id by {
        assert(r.participants.contains(ps2[i]));
        let q = choose|q: int|
            0 <= q < r.participants.len() && r.participants[q] == ps2[i];
    }
}

/// A fresh id is no existing card's id.
pub proof fn lemma_fresh_card_id(r: RetroV, bound: Id, card_id: Id)
    requires
        retro_ids_below(r, bound),
        card_id >= bound,
    ensures
        !has_card(r, card_id),
{
}

/// Adding a card with a fresh id preserves the aggregate invariant, and
/// keeps every owned id below any bound that also covers the new card.
pub proof fn lemma_add_card_wf(r: RetroV, lane_id: Id, card: CardV, bound: Id)
    requires
        retro_wf(r),
        has_lane(r, lane_id),
        !has_card(r, card.id),
        card.retro_id == r.id,
        card.votes.no_duplicates(),
    ensures
        retro_wf(add_card_to(r, lane_id, card)),
        retro_ids_below(r, bound) && card.id < bound ==> retro_ids_below(
            add_card_to(r, lane_id, card),
            bound,
        ),
{
    let i = lane_index(r, lane_id);
    assert(0 <= i < r.lanes.len() && r.lanes[i].id == lane_id);
    let r2 = add_card_to(r, lane_id, card);
    let n = r.lanes[i].cards.len() as int;
    assert(forall|a: int| 0 <= a < r2.lanes.len() ==> (#[trigger] r2.lanes[a]).id == r.lanes[a].id);
    assert forall|a: int, b: int| card_pos_valid(r2, a, b) implies (#[trigger] r2.lanes[a].cards[b])
        == if a == i && b == n {
        card
    } else {
        r.lanes[a].cards[b]
    } by {}
    assert forall|a: int, b: int, k: int, l: int|
        #![trigger r2.lanes[a].cards[b], r2.lanes[k].cards[l]]
        card_pos_valid(r2, a, b) && card_pos_valid(r2, k, l) && (a != k || b != l)
        implies r2.lanes[a].cards[b].id != r2.lanes[k].cards[l].id by {
        if a == i && b == n {
            assert(r.lanes[k].cards[l].id != card.id);
        } else if k == i && l == n {
            assert(r.lanes[a].cards[b].id != card.id);
        }
    }
}

/// Editing a card's text preserves the aggregate invariant and owns no
/// new id.
pub proof fn lemma_edit_card_wf(r: RetroV, card_id: Id, text: Seq<char>, bound: Id)
    requires
        retro_wf(r),
        has_card(r, card_id),
    ensures
        retro_wf(edit_card_in(r, card_id, text)),
        retro_ids_below(r, bound) ==> retro_ids_below(edit_card_in(r, card_id, text), bound),
{
    let p = card_pos(r, card_id);
    assert(card_pos_valid(r, p.0, p.1) && r.lanes[p.0].cards[p.1].id == card_id);
    let r2 = edit_card_in(r, card_id, text);
    assert(forall|a: int| 0 <= a < r2.lanes.len() ==> (#[trigger] r2.lanes[a]).id == r.lanes[a].id);
    assert forall|a: int, b: int| card_pos_valid(r2, a, b) implies {
        &&& (#[trigger] r2.lanes[a].cards[b]).id == r.lanes[a].cards[b].id
        &&& r2.lanes[a].cards[b].retro_id == r.lanes[a].cards[b].retro_id
        &&& r2.lanes[a].cards[b].votes == r.lanes[a].cards[b].votes
    } by {}
}

/// Toggling a vote preserves the aggregate invariant and owns no new
/// id.
pub proof fn lemma_vote_card_wf(r: RetroV, card_id: Id, user: Id, vote: bool, bound: Id)
    requires
        retro_wf(r),
        has_card(r, card_id),
    ensures
        retro_wf(vote_card_in(r, card_id, user, vote)),
        retro_ids_below(r, bound) ==> retro_ids_below(vote_card_in(r, card_id, user, vote), bound),
{
    let p = card_pos(r, card_id);
    assert(card_pos_valid(r, p.0, p.1) && r.lanes[p.0].cards[p.1].id == card_id);
    lemma_toggle_vote_props(r.lanes[p.0].cards[p.1].votes, user, vote);
    let r2 = vote_card_in(r, card_id, user, vote);
    assert(forall|a: int| 0 <= a < r2.lanes.len() ==> (#[trigger] r2.lanes[a]).id == r.lanes[a].id);
    assert forall|a: int, b: int| card_pos_valid(r2, a, b) implies {
        &&& (#[trigger] r2.lanes[a].cards[b]).id == r.lanes[a].cards[b].id
        &&& r2.lanes[a].cards[b].retro_id == r.lanes[a].cards[b].retro_id
        &&& r2.lanes[a].cards[b].votes.no_duplicates()
    } by {}
}

/// A fresh card with no subcards and no votes.
pub fn build_new_card(id: Id, retro_id: Id, creator_id: Id, text: String) -> (res: Card)
    ensures
        res@ == (CardV {
            id,
            retro_id,
            creator_id,
            text: text@,
            subcards: Seq::<CardV>::empty(),
            votes: Seq::<Id>::empty(),
        }),
{
    let res = Card { id, retro_id, creator_id, text, subcards: Vec::new(), votes: Vec::new() };
    proof {
        assert(res@.subcards =~= Seq::<CardV>::empty());
        assert(res@ =~= (CardV {
            id,
            retro_id,
            creator_id,
            text: res.text@,
            subcards: Seq::<CardV>::empty(),
            votes: Seq::<Id>::empty(),
        }));
    }
    res
}

/// A fresh retro: the given name and creator, the fixed seed topology of
/// three empty lanes ("Good" at priority 1, "Bad" at 2, "Needs
/// Improvement" at 3), step `Writing`, and no participants.
pub fn build_new_retro(
    id: Id,
    lane_good: Id,
    lane_bad: Id,
    lane_improve: Id,
    retro_name: String,
    creator_id: Id,
    created_at: String,
) -> (res: Retro)
    ensures
        res@.id == id,
        res@.retro_name == retro_name@,
        res@.creator_id == creator_id,
        res@.step == RetroStep::Writing,
        res@.created_at == created_at@,
        res@.participants == Seq::<RetroParticipant>::empty(),
        res@.lanes.len() == 3,
        res@.lanes[0] == (LaneV {
            id: lane_good,
            title: "Good"@,
            cards: Seq::<CardV>::empty(),
            priority: 1,
        }),
        res@.lanes[1] == (LaneV {
            id: lane_bad,
            title: "Bad"@,
            cards: Seq::<CardV>::empty(),
            priority: 2,
        }),
        res@.lanes[2] == (LaneV {
            id: lane_improve,
            title: "Needs Improvement"@,
            cards: Seq::<CardV>::empty(),
            priority: 3,
        }),
{
    let mut lanes: Vec<Lane> = Vec::new();
    lanes.push(Lane { id: lane_good, title: "Good".to_owned(), cards: Vec::new(), priority: 1 });
    lanes.push(Lane { id: lane_bad, title: "Bad".to_owned(), cards: Vec::new(), priority: 2 });
    lanes.push(
        Lane {
            id: lane_improve,
            title: "Needs Improvement".to_owned(),
            cards: Vec::new(),
            priority: 3,
        },
    );
    let res = Retro {
        id,
        retro_name,
        creator_id,
        step: RetroStep::Writing,
        created_at,
        participants: Vec::new(),
        lanes,
    };
    proof {
        assert(res@.participants =~= Seq::<RetroParticipant>::empty());
        assert(res.lanes@[0]@.cards =~= Seq::<CardV>::empty());
        assert(res.lanes@[1]@.cards =~= Seq::<CardV>::empty());
        assert(res.lanes@[2]@.cards =~= Seq::<CardV>::empty());
        assert(res@.lanes[0] =~= (LaneV {
            id: lane_good,
            title: "Good"@,
            cards: Seq::<CardV>::empty(),
            priority: 1,
        }));
        assert(res@.lanes[1] =~= (LaneV {
            id: lane_bad,
            title: "Bad"@,
            cards: Seq::<CardV>::empty(),
            priority: 2,
        }));
        assert(res@.lanes[2] =~= (LaneV {
            id: lane_improve,
            title: "Needs Improvement"@,
            cards: Seq::<CardV>::empty(),
            priority: 3,
        }));
    }
    res
}

} // verus!
