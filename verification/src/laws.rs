//! Laws of the mutation model.
//!
//! These proofs state, once and for all inputs, how the pure mutations
//! of `mutations` compose; the coordinator's contracts deliver each
//! single step, and these laws carry the multi-step guarantees.

use vstd::prelude::*;

use crate::model::{CardV, Id, RetroV};
use crate::mutations::{
    add_card_to, card_at, card_pos_valid, card_with_text, edit_card_in,
    enter_retro_v, has_card, has_lane, has_participant, lane_index, lemma_add_card_wf,
    lemma_card_pos_of, lemma_edit_card_wf, lemma_enter_retro_wf,
    lemma_participant_count_distinct, participant_count, retro_wf,
};

verus! {

/// Entering a retro is idempotent: entering a second time changes
/// nothing, and the participant list holds the entering user exactly
/// once.
pub proof fn lemma_enter_retro_idempotent(r: RetroV, user: Id)
    requires
        retro_wf(r),
    ensures
        enter_retro_v(enter_retro_v(r, user), user) == enter_retro_v(r, user),
        participant_count(enter_retro_v(r, user).participants, user) == 1,
{
    let r1 = enter_retro_v(r, user);
    lemma_enter_retro_wf(r, user);
    if has_participant(r.participants, user) {
        assert(r1.participants == r.participants);
    } else {
        assert(r1.participants[r.participants.len() as int].user == user);
    }
    assert(has_participant(r1.participants, user));
    assert(enter_retro_v(r1, user) =~= r1);
    lemma_participant_count_distinct(r1.participants, user);
}

/// Adding a card and then editing it by its id yields one card under
/// that id — not two — holding the new text, at the end of the lane the
/// card was added to.
pub proof fn lemma_add_then_edit(r: RetroV, lane_id: Id, card: CardV, text: Seq<char>)
    requires
        retro_wf(r),
        has_lane(r, lane_id),
        !has_card(r, card.id),
        card.retro_id == r.id,
        card.votes.no_duplicates(),
    ensures
        ({
            let r2 = edit_card_in(add_card_to(r, lane_id, card), card.id, text);
            &&& retro_wf(r2)
            &&& has_card(r2, card.id)
            &&& card_at(r2, card.id) == card_with_text(card, text)
            &&& forall|i: int, j: int|
                card_pos_valid(r2, i, j) && (#[trigger] r2.lanes[i].cards[j]).id == card.id
                    ==> i == lane_index(r, lane_id) && j == r.lanes[lane_index(
                    r,
                    lane_id,
                )].cards.len()
        }),
{
    let r1 = add_card_to(r, lane_id, card);
    lemma_add_card_wf(r, lane_id, card, 0);
    let li = lane_index(r, lane_id);
    assert(0 <= li < r.lanes.len() && r.lanes[li].id == lane_id);
    let n = r.lanes[li].cards.len() as int;
    assert(r1.lanes[li].cards[n] == card);
    assert(card_pos_valid(r1, li, n));
    lemma_card_pos_of(r1, li, n);
    lemma_edit_card_wf(r1, card.id, text, 0);
    let r2 = edit_card_in(r1, card.id, text);
    assert(r2.lanes[li].cards[n] == card_with_text(card, text));
    assert(card_pos_valid(r2, li, n));
    lemma_card_pos_of(r2, li, n);
    assert(card_at(r2, card.id) == card_with_text(card, text));
    assert forall|i: int, j: int|
        card_pos_valid(r2, i, j) && (#[trigger] r2.lanes[i].cards[j]).id == card.id implies i == li
        && j == n by {
        if i != li || j != n {
            assert(r2.lanes[i].cards[j].id != r2.lanes[li].cards[n].id);
        }
    }
}

} // verus!
