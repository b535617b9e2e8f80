//! The mutation coordinator.
//!
//! Every state-changing operation is one logical step: read the
//! aggregate from the backend, apply the pure mutation, write the whole
//! aggregate back, and only then publish exactly one event carrying the
//! new authoritative sub-state.  A referenced id that does not exist
//! aborts the operation with `NotFound` and leaves both the store and
//! the bus untouched; nothing is ever partially applied.
//!
//! The coordinator also owns the id source: a counter above every id it
//! ever handed out.  That makes every retro, lane, card and user id
//! unique across the whole service, and makes freshly drawn ids
//! provably distinct from everything stored.

use vstd::prelude::*;

use crate::bus::EventBus;
use crate::errors::ServiceError;
use crate::events::{
    card_event, step_event, user_list_event, SubscriptionUpdate, SubscriptionUpdateV,
};
use crate::model::{Card, CardV, Id, Retro, RetroParticipant, RetroStep, RetroV, User, UserV};
use crate::mutations::{
    add_card_to, apply_add_card, apply_edit_card, apply_enter_retro, apply_leave_retro,
    apply_set_step, apply_vote_card, build_new_card, build_new_retro, card_at, card_pos,
    card_with_text, card_with_votes, clone_participants, edit_card_in, enter_retro_v, has_card,
    has_lane, has_participant, leave_retro_v, lemma_add_card_wf, lemma_enter_retro_wf,
    lemma_fresh_card_id, lemma_ids_below_mono, lemma_leave_retro_wf, lemma_edit_card_wf,
    lemma_participant_count_distinct, lemma_vote_card_wf, participant_count, retro_ids_below,
    retro_wf, retro_with_step, toggle_vote, vote_card_in,
};
use crate::store::{
    has_retro_id, has_user_id, retro_index_of, retro_with_id, user_with_id, MemoryHandler,
};

verus! {

/// Relies on chrono's `Utc::now` and `DateTime::to_rfc3339`: the moment
/// of the call, rendered as an RFC 3339 timestamp.  Nothing is assumed
/// of the text; the clock decides it.
#[verifier::external_body]
fn now_rfc3339() -> (res: String) {
    chrono::Utc::now().to_rfc3339()
}

/// The coordinator: the in-memory backend, the event bus, and the id
/// source, tied together by one invariant.
pub struct Coordinator {
    /// The persistence backend.
    pub store: MemoryHandler,
    /// The event bus carrying one message per state change.
    pub bus: EventBus,
    /// The id source: strictly above every id ever handed out.  Owned
    /// by the coordinator; nothing else should write it.
    pub next_id: Id,
}

impl Coordinator {
    /// The next id the coordinator will hand out; every id it ever
    /// issued is below it.
    pub open spec fn next_id(self) -> Id {
        self.next_id
    }

    /// Invariant: the backend and the bus are consistent, and every id
    /// owned by a stored aggregate lies below the id counter.
    pub open spec fn wf(self) -> bool {
        &&& self.store.wf()
        &&& self.bus.wf()
        &&& forall|i: int|
            0 <= i < self.store.retros().len() ==> retro_ids_below(
                #[trigger] self.store.retros()[i],
                self.next_id(),
            )
        &&& forall|i: int|
            0 <= i < self.store.users().len() ==> (#[trigger] self.store.users()[i]).id
                < self.next_id()
    }

    /// A fresh service with nothing stored and nothing published.
    pub fn new() -> (res: Coordinator)
        ensures
            res.wf(),
            res.next_id() == 0,
            res.store.retros() == Seq::<RetroV>::empty(),
            res.store.users() == Seq::<UserV>::empty(),
            res.bus.card_additions.history() == Seq::<SubscriptionUpdateV>::empty(),
            res.bus.user_updates.history() == Seq::<SubscriptionUpdateV>::empty(),
            res.bus.step_updates.history() == Seq::<SubscriptionUpdateV>::empty(),
    {
        Coordinator { store: MemoryHandler::new(), bus: EventBus::new(), next_id: 0 }
    }

    /// Draw an id never handed out before.
    fn fresh_id(&mut self) -> (res: Id)
        requires
            old(self).next_id() < u64::MAX,
        ensures
            res == old(self).next_id(),
            final(self).next_id() == old(self).next_id() + 1,
            final(self).store == old(self).store,
            final(self).bus == old(self).bus,
    {
        let id = self.next_id;
        self.next_id = self.next_id + 1;
        id
    }

    /// Create a user under a fresh id and persist it.  No
    /// username-uniqueness rule exists; names may repeat.
    pub fn create_user(&mut self, username: String) -> (res: User)
        requires
            old(self).wf(),
            old(self).next_id() < u64::MAX,
        ensures
            final(self).wf(),
            final(self).next_id() == old(self).next_id() + 1,
            res@.id == old(self).next_id(),
            res@.username == username@,
            final(self).store.users() == old(self).store.users().push(res@),
            final(self).store.retros() == old(self).store.retros(),
            final(self).bus == old(self).bus,
    {
        let id = self.fresh_id();
        let user = User { id, username };
        proof {
            assert forall|i: int|
                0 <= i < self.store.users().len() implies (#[trigger] self.store.users()[i]).id
                != user@.id by {}
        }
        let stored = self.store.create_user(user);
        let res = match stored {
            Ok(u) => u,
            Err(_) => unreached(),
        };
        proof {
            assert forall|i: int|
                0 <= i < self.store.retros().len() implies retro_ids_below(
                #[trigger] self.store.retros()[i],
                self.next_id(),
            ) by {
                lemma_ids_below_mono(
                    self.store.retros()[i],
                    old(self).next_id(),
                    self.next_id(),
                );
            }
        }
        res
    }

    /// Create a retro under a fresh id: the given name, the creating
    /// user, the fixed three-lane seed topology, step `Writing`, and no
    /// participants.  The aggregate is persisted and one (empty)
    /// participant-list event is published for it.
    pub fn create_retro(&mut self, retro_name: String, creator: Id) -> (res: Retro)
        requires
            old(self).wf(),
            old(self).next_id() + 4 <= u64::MAX,
            old(self).bus.user_updates.history().len() < u64::MAX,
        ensures
            final(self).wf(),
            final(self).next_id() == old(self).next_id() + 4,
            res@.id == old(self).next_id(),
            res@.retro_name == retro_name@,
            res@.creator_id == creator,
            res@.step == RetroStep::Writing,
            res@.participants == Seq::<RetroParticipant>::empty(),
            res@.lanes.len() == 3,
            res@.lanes[0].title == "Good"@ && res@.lanes[0].priority == 1 && res@.lanes[0].cards
                == Seq::<CardV>::empty(),
            res@.lanes[1].title == "Bad"@ && res@.lanes[1].priority == 2 && res@.lanes[1].cards
                == Seq::<CardV>::empty(),
            res@.lanes[2].title == "Needs Improvement"@ && res@.lanes[2].priority == 3
                && res@.lanes[2].cards == Seq::<CardV>::empty(),
            retro_wf(res@),
            final(self).store.retros() == old(self).store.retros().push(res@),
            final(self).store.users() == old(self).store.users(),
            final(self).bus.user_updates.history() == old(self).bus.user_updates.history().push(
                user_list_event(res@.id, Seq::<RetroParticipant>::empty()),
            ),
            final(self).bus.card_additions == old(self).bus.card_additions,
            final(self).bus.step_updates == old(self).bus.step_updates,
    {
        let id = self.fresh_id();
        let lane_good = self.fresh_id();
        let lane_bad = self.fresh_id();
        let lane_improve = self.fresh_id();
        let created_at = now_rfc3339();
        let retro = build_new_retro(
            id,
            lane_good,
            lane_bad,
            lane_improve,
            retro_name,
            creator,
            created_at,
        );
        proof {
            assert(retro_wf(retro@));
            assert(retro_ids_below(retro@, self.next_id()));
            assert forall|i: int|
                0 <= i < self.store.retros().len() implies (#[trigger] self.store.retros()[i]).id
                != retro@.id by {
                assert(retro_ids_below(self.store.retros()[i], old(self).next_id()));
            }
        }
        let stored = self.store.create_retro(retro);
        let res = match stored {
            Ok(r) => r,
            Err(_) => unreached(),
        };
        self.bus.user_updates.publish(
            SubscriptionUpdate::create_user_list_update(id, Vec::new()),
        );
        proof {
            assert(final(self).bus.user_updates.history() =~= old(
                self,
            ).bus.user_updates.history().push(
                user_list_event(res@.id, Seq::<RetroParticipant>::empty()),
            ));
            assert forall|i: int|
                0 <= i < self.store.retros().len() implies retro_ids_below(
                #[trigger] self.store.retros()[i],
                self.next_id(),
            ) by {
                if i < old(self).store.retros().len() {
                    lemma_ids_below_mono(
                        self.store.retros()[i],
                        old(self).next_id(),
                        self.next_id(),
                    );
                }
            }
        }
        res
    }

    /// Add `user` to the participants of the retro; entering twice is
    /// one membership.  When the list changes, the new aggregate is
    /// persisted and one participant-list event carrying the full new
    /// list is published; when the user already participates, nothing
    /// is written and nothing published.  Returns the authoritative
    /// participant list.
    pub fn enter_retro(&mut self, retro_id: Id, user: Id) -> (res: Result<
        Vec<RetroParticipant>,
        ServiceError,
    >)
        requires
            old(self).wf(),
            old(self).bus.user_updates.history().len() < u64::MAX,
        ensures
            final(self).wf(),
            final(self).next_id() == old(self).next_id(),
            res is Ok <==> has_retro_id(old(self).store.retros(), retro_id),
            res matches Err(e) ==> e == ServiceError::NotFound && *final(self) == *old(self),
            res matches Ok(ps) ==> ({
                let r0 = retro_with_id(old(self).store.retros(), retro_id);
                let r1 = enter_retro_v(r0, user);
                &&& ps@ == r1.participants
                &&& participant_count(r1.participants, user) == 1
                &&& final(self).store.users() == old(self).store.users()
                &&& final(self).bus.card_additions == old(self).bus.card_additions
                &&& final(self).bus.step_updates == old(self).bus.step_updates
                &&& if has_participant(r0.participants, user) {
                    *final(self) == *old(self)
                } else {
                    final(self).store.retros() == old(self).store.retros().update(
                        retro_index_of(old(self).store.retros(), retro_id),
                        r1,
                    ) && final(self).bus.user_updates.history() == old(
                        self,
                    ).bus.user_updates.history().push(user_list_event(retro_id, r1.participants))
                }
            }),
    {
        let got = self.store.get_retro(retro_id);
        match got {
            Err(e) => Err(e),
            Ok(mut retro) => {
                let ghost r0 = retro_with_id(old(self).store.retros(), retro_id);
                proof {
                    assert(r0.id == retro_id);
                    assert(retro_wf(r0));
                    lemma_enter_retro_wf(r0, user);
                    lemma_participant_count_distinct(
                        enter_retro_v(r0, user).participants,
                        user,
                    );
                }
                let changed = apply_enter_retro(&mut retro, user);
                let list = clone_participants(&retro.participants);
                if changed {
                    let upd = self.store.update_retro(retro);
                    if upd.is_err() {
                        proof {
                            assert(has_retro_id(old(self).store.retros(), retro_id));
                        }
                        return unreached();
                    }
                    let event_list = clone_participants(&list);
                    self.bus.user_updates.publish(
                        SubscriptionUpdate::create_user_list_update(retro_id, event_list),
                    );
                    proof {
                        assert(final(self).bus.user_updates.history() =~= old(
                            self,
                        ).bus.user_updates.history().push(
                            user_list_event(retro_id, enter_retro_v(r0, user).participants),
                        ));
                        assert forall|i: int|
                            0 <= i < self.store.retros().len() implies retro_ids_below(
                            #[trigger] self.store.retros()[i],
                            self.next_id(),
                        ) by {}
                    }
                }
                Ok(list)
            },
        }
    }

    /// Remove `user` from the participants of the retro.  The new
    /// aggregate is persisted and one participant-list event carrying
    /// the full new list is published, whether or not the user was a
    /// participant.  Returns the authoritative participant list.
    pub fn leave_retro(&mut self, retro_id: Id, user: Id) -> (res: Result<
        Vec<RetroParticipant>,
        ServiceError,
    >)
        requires
            old(self).wf(),
            old(self).bus.user_updates.history().len() < u64::MAX,
        ensures
            final(self).wf(),
            final(self).next_id() == old(self).next_id(),
            res is Ok <==> has_retro_id(old(self).store.retros(), retro_id),
            res matches Err(e) ==> e == ServiceError::NotFound && *final(self) == *old(self),
            res matches Ok(ps) ==> ({
                let r0 = retro_with_id(old(self).store.retros(), retro_id);
                let r1 = leave_retro_v(r0, user);
                &&& ps@ == r1.participants
                &&& !has_participant(r1.participants, user)
                &&& final(self).store.users() == old(self).store.users()
                &&& final(self).bus.card_additions == old(self).bus.card_additions
                &&& final(self).bus.step_updates == old(self).bus.step_updates
                &&& final(self).store.retros() == old(self).store.retros().update(
                    retro_index_of(old(self).store.retros(), retro_id),
                    r1,
                )
                &&& final(self).bus.user_updates.history() == old(
                    self,
                ).bus.user_updates.history().push(user_list_event(retro_id, r1.participants))
            }),
    {
        let got = self.store.get_retro(retro_id);
        match got {
            Err(e) => Err(e),
            Ok(mut retro) => {
                let ghost r0 = retro_with_id(old(self).store.retros(), retro_id);
                proof {
                    assert(r0.id == retro_id);
                    assert(retro_wf(r0));
                    lemma_leave_retro_wf(r0, user);
                    crate::mutations::lemma_leave_participants_props(r0.participants, user);
                }
                apply_leave_retro(&mut retro, user);
                let list = clone_participants(&retro.participants);
                let upd = self.store.update_retro(retro);
                if upd.is_err() {
                    proof {
                        assert(has_retro_id(old(self).store.retros(), retro_id));
                    }
                    return unreached();
                }
                let event_list = clone_participants(&list);
                self.bus.user_updates.publish(
                    SubscriptionUpdate::create_user_list_update(retro_id, event_list),
                );
                proof {
                    assert(final(self).bus.user_updates.history() =~= old(
                        self,
                    ).bus.user_updates.history().push(
                        user_list_event(retro_id, leave_retro_v(r0, user).participants),
                    ));
                    assert forall|i: int|
                        0 <= i < self.store.retros().len() implies retro_ids_below(
                        #[trigger] self.store.retros()[i],
                        self.next_id(),
                    ) by {}
                }
                Ok(list)
            },
        }
    }

    /// Add a card with the given text to one lane of a retro, under a
    /// fresh card id.  The new aggregate is persisted and one
    /// card-added event carrying the lane and the full card is
    /// published.  A lane id that does not belong to the retro yields
    /// `NotFound` and changes neither the store nor the bus.
    pub fn add_card(&mut self, retro_id: Id, lane_id: Id, author: Id, text: String) -> (res:
        Result<Card, ServiceError>)
        requires
            old(self).wf(),
            old(self).next_id() < u64::MAX,
            old(self).bus.card_additions.history().len() < u64::MAX,
        ensures
            final(self).wf(),
            final(self).next_id() == old(self).next_id() + if has_retro_id(
                old(self).store.retros(),
                retro_id,
            ) {
                1int
            } else {
                0int
            },
            final(self).store.users() == old(self).store.users(),
            final(self).bus.user_updates == old(self).bus.user_updates,
            final(self).bus.step_updates == old(self).bus.step_updates,
            res is Ok <==> has_retro_id(old(self).store.retros(), retro_id) && has_lane(
                retro_with_id(old(self).store.retros(), retro_id),
                lane_id,
            ),
            res matches Err(e) ==> e == ServiceError::NotFound && final(self).store == old(
                self,
            ).store && final(self).bus == old(self).bus,
            res matches Ok(c) ==> ({
                let r0 = retro_with_id(old(self).store.retros(), retro_id);
                &&& c@ == (CardV {
                    id: old(self).next_id(),
                    retro_id,
                    creator_id: author,
                    text: text@,
                    subcards: Seq::<CardV>::empty(),
                    votes: Seq::<Id>::empty(),
                })
                &&& final(self).store.retros() == old(self).store.retros().update(
                    retro_index_of(old(self).store.retros(), retro_id),
                    add_card_to(r0, lane_id, c@),
                )
                &&& final(self).bus.card_additions.history() == old(
                    self,
                ).bus.card_additions.history().push(card_event(retro_id, lane_id, c@))
            }),
    {
        let got = self.store.get_retro(retro_id);
        match got {
            Err(e) => Err(e),
            Ok(mut retro) => {
                let ghost r0 = retro_with_id(old(self).store.retros(), retro_id);
                let id = self.fresh_id();
                let card = build_new_card(id, retro_id, author, text);
                let ret = card.clone();
                let event_card = card.clone();
                proof {
                    assert(r0.id == retro_id);
                    assert(retro_wf(r0));
                    assert(retro_ids_below(r0, old(self).next_id()));
                    lemma_ids_below_mono(r0, old(self).next_id(), self.next_id());
                    if has_lane(r0, lane_id) {
                        lemma_fresh_card_id(r0, old(self).next_id(), id);
                        lemma_add_card_wf(r0, lane_id, card@, self.next_id());
                    }
                }
                let added = apply_add_card(&mut retro, lane_id, card);
                if added {
                    let upd = self.store.update_retro(retro);
                    if upd.is_err() {
                        proof {
                            assert(has_retro_id(old(self).store.retros(), retro_id));
                        }
                        return unreached();
                    }
                    self.bus.card_additions.publish(
                        SubscriptionUpdate::create_card_added(retro_id, lane_id, event_card),
                    );
                    proof {
                        assert(final(self).bus.card_additions.history() =~= old(
                            self,
                        ).bus.card_additions.history().push(
                            card_event(retro_id, lane_id, ret@),
                        ));
                        assert forall|i: int|
                            0 <= i < self.store.retros().len() implies retro_ids_below(
                            #[trigger] self.store.retros()[i],
                            self.next_id(),
                        ) by {
                            lemma_ids_below_mono(
                                old(self).store.retros()[i],
                                old(self).next_id(),
                                self.next_id(),
                            );
                        }
                    }
                    Ok(ret)
                } else {
                    proof {
                        assert forall|i: int|
                            0 <= i < self.store.retros().len() implies retro_ids_below(
                            #[trigger] self.store.retros()[i],
                            self.next_id(),
                        ) by {
                            lemma_ids_below_mono(
                                old(self).store.retros()[i],
                                old(self).next_id(),
                                self.next_id(),
                            );
                        }
                    }
                    Err(ServiceError::NotFound)
                }
            },
        }
    }

    /// Replace the text of a card, found by scanning all lanes of the
    /// retro.  The new aggregate is persisted and one card-added event
    /// is published for it: edits and additions deliberately share one
    /// message shape, told apart client-side by whether the card id was
    /// already known.
    pub fn edit_card(&mut self, retro_id: Id, card_id: Id, text: String) -> (res: Result<
        Card,
        ServiceError,
    >)
        requires
            old(self).wf(),
            old(self).bus.card_additions.history().len() < u64::MAX,
        ensures
            final(self).wf(),
            final(self).next_id() == old(self).next_id(),
            final(self).store.users() == old(self).store.users(),
            final(self).bus.user_updates == old(self).bus.user_updates,
            final(self).bus.step_updates == old(self).bus.step_updates,
            res is Ok <==> has_retro_id(old(self).store.retros(), retro_id) && has_card(
                retro_with_id(old(self).store.retros(), retro_id),
                card_id,
            ),
            res matches Err(e) ==> e == ServiceError::NotFound && *final(self) == *old(self),
            res matches Ok(c) ==> ({
                let r0 = retro_with_id(old(self).store.retros(), retro_id);
                &&& c@ == card_with_text(card_at(r0, card_id), text@)
                &&& final(self).store.retros() == old(self).store.retros().update(
                    retro_index_of(old(self).store.retros(), retro_id),
                    edit_card_in(r0, card_id, text@),
                )
                &&& final(self).bus.card_additions.history() == old(
                    self,
                ).bus.card_additions.history().push(
                    card_event(retro_id, r0.lanes[card_pos(r0, card_id).0].id, c@),
                )
            }),
    {
        let got = self.store.get_retro(retro_id);
        match got {
            Err(e) => Err(e),
            Ok(mut retro) => {
                let ghost r0 = retro_with_id(old(self).store.retros(), retro_id);
                proof {
                    assert(r0.id == retro_id);
                    assert(retro_wf(r0));
                    if has_card(r0, card_id) {
                        lemma_edit_card_wf(r0, card_id, text@, self.next_id());
                    }
                }
                let edited = apply_edit_card(&mut retro, card_id, text);
                match edited {
                    None => Err(ServiceError::NotFound),
                    Some((card, owning_lane)) => {
                        let upd = self.store.update_retro(retro);
                        if upd.is_err() {
                            proof {
                                assert(has_retro_id(old(self).store.retros(), retro_id));
                            }
                            return unreached();
                        }
                        let event_card = card.clone();
                        self.bus.card_additions.publish(
                            SubscriptionUpdate::create_card_added(
                                retro_id,
                                owning_lane,
                                event_card,
                            ),
                        );
                        proof {
                            assert(final(self).bus.card_additions.history() =~= old(
                                self,
                            ).bus.card_additions.history().push(
                                card_event(retro_id, r0.lanes[card_pos(r0, card_id).0].id, card@),
                            ));
                        }
                        Ok(card)
                    },
                }
            },
        }
    }

    /// Set or clear the acting user's vote on a card.  Only the card's
    /// own creator may vote on it — a deliberate access-control rule,
    /// self-only "finalize" semantics — and any other user receives
    /// `Unauthorized`.  On success the new aggregate is persisted and
    /// one card-added event carrying the updated card is published.
    pub fn vote_card(&mut self, retro_id: Id, card_id: Id, user: Id, vote: bool) -> (res: Result<
        Card,
        ServiceError,
    >)
        requires
            old(self).wf(),
            old(self).bus.card_additions.history().len() < u64::MAX,
        ensures
            final(self).wf(),
            final(self).next_id() == old(self).next_id(),
            final(self).store.users() == old(self).store.users(),
            final(self).bus.user_updates == old(self).bus.user_updates,
            final(self).bus.step_updates == old(self).bus.step_updates,
            res is Ok <==> has_retro_id(old(self).store.retros(), retro_id) && has_card(
                retro_with_id(old(self).store.retros(), retro_id),
                card_id,
            ) && card_at(retro_with_id(old(self).store.retros(), retro_id), card_id).creator_id
                == user,
            res matches Err(e) ==> *final(self) == *old(self) && ({
                let r0 = retro_with_id(old(self).store.retros(), retro_id);
                &&& (e == ServiceError::NotFound <==> !has_retro_id(
                    old(self).store.retros(),
                    retro_id,
                ) || !has_card(r0, card_id))
                &&& (e == ServiceError::Unauthorized <==> has_retro_id(
                    old(self).store.retros(),
                    retro_id,
                ) && has_card(r0, card_id) && card_at(r0, card_id).creator_id != user)
            }),
            res matches Ok(c) ==> ({
                let r0 = retro_with_id(old(self).store.retros(), retro_id);
                &&& c@ == card_with_votes(
                    card_at(r0, card_id),
                    toggle_vote(card_at(r0, card_id).votes, user, vote),
                )
                &&& final(self).store.retros() == old(self).store.retros().update(
                    retro_index_of(old(self).store.retros(), retro_id),
                    vote_card_in(r0, card_id, user, vote),
                )
                &&& final(self).bus.card_additions.history() == old(
                    self,
                ).bus.card_additions.history().push(
                    card_event(retro_id, r0.lanes[card_pos(r0, card_id).0].id, c@),
                )
            }),
    {
        let got = self.store.get_retro(retro_id);
        match got {
            Err(e) => Err(e),
            Ok(mut retro) => {
                let ghost r0 = retro_with_id(old(self).store.retros(), retro_id);
                proof {
                    assert(r0.id == retro_id);
                    assert(retro_wf(r0));
                    if has_card(r0, card_id) {
                        lemma_vote_card_wf(r0, card_id, user, vote, self.next_id());
                    }
                }
                let voted = apply_vote_card(&mut retro, card_id, user, vote);
                match voted {
                    Err(e) => Err(e),
                    Ok((card, owning_lane)) => {
                        let upd = self.store.update_retro(retro);
                        if upd.is_err() {
                            proof {
                                assert(has_retro_id(old(self).store.retros(), retro_id));
                            }
                            return unreached();
                        }
                        let event_card = card.clone();
                        self.bus.card_additions.publish(
                            SubscriptionUpdate::create_card_added(
                                retro_id,
                                owning_lane,
                                event_card,
                            ),
                        );
                        proof {
                            assert(final(self).bus.card_additions.history() =~= old(
                                self,
                            ).bus.card_additions.history().push(
                                card_event(retro_id, r0.lanes[card_pos(r0, card_id).0].id, card@),
                            ));
                        }
                        Ok(card)
                    },
                }
            },
        }
    }

    /// Overwrite the workflow step of a retro with the caller-supplied
    /// value — any transition is permitted, none is validated — persist
    /// the aggregate, and publish one step-changed event.
    pub fn update_retro_step(&mut self, retro_id: Id, step: RetroStep) -> (res: Result<
        Retro,
        ServiceError,
    >)
        requires
            old(self).wf(),
            old(self).bus.step_updates.history().len() < u64::MAX,
        ensures
            final(self).wf(),
            final(self).next_id() == old(self).next_id(),
            res is Ok <==> has_retro_id(old(self).store.retros(), retro_id),
            res matches Err(e) ==> e == ServiceError::NotFound && *final(self) == *old(self),
            res matches Ok(r) ==> ({
                let r0 = retro_with_id(old(self).store.retros(), retro_id);
                &&& r@ == retro_with_step(r0, step)
                &&& final(self).store.retros() == old(self).store.retros().update(
                    retro_index_of(old(self).store.retros(), retro_id),
                    retro_with_step(r0, step),
                )
                &&& final(self).store.users() == old(self).store.users()
                &&& final(self).bus.card_additions == old(self).bus.card_additions
                &&& final(self).bus.user_updates == old(self).bus.user_updates
                &&& final(self).bus.step_updates.history() == old(
                    self,
                ).bus.step_updates.history().push(step_event(retro_id, step))
            }),
    {
        let got = self.store.get_retro(retro_id);
        match got {
            Err(e) => Err(e),
            Ok(mut retro) => {
                let ghost r0 = retro_with_id(old(self).store.retros(), retro_id);
                proof {
                    assert(r0.id == retro_id);
                    assert(retro_wf(r0));
                }
                apply_set_step(&mut retro, step);
                let ret = retro.clone();
                proof {
                    assert(retro_wf(retro@));
                }
                let upd = self.store.update_retro(retro);
                if upd.is_err() {
                    proof {
                        assert(has_retro_id(old(self).store.retros(), retro_id));
                    }
                    return unreached();
                }
                self.bus.step_updates.publish(
                    SubscriptionUpdate::create_step_update(retro_id, step),
                );
                proof {
                    assert(final(self).bus.step_updates.history() =~= old(
                        self,
                    ).bus.step_updates.history().push(step_event(retro_id, step)));
                    assert forall|i: int|
                        0 <= i < self.store.retros().len() implies retro_ids_below(
                        #[trigger] self.store.retros()[i],
                        self.next_id(),
                    ) by {}
                }
                Ok(ret)
            },
        }
    }

    /// Copies of all stored retros, in insertion order.
    pub fn all_retros(&self) -> (res: Vec<Retro>)
        ensures
            crate::store::retros_view(res@) == self.store.retros(),
    {
        self.store.get_retros()
    }

    /// A copy of one retro, or `None` when the id is unknown.
    pub fn retro_by_id(&self, retro_id: Id) -> (res: Option<Retro>)
        requires
            self.wf(),
        ensures
            res is Some <==> has_retro_id(self.store.retros(), retro_id),
            res matches Some(r) ==> r@ == retro_with_id(self.store.retros(), retro_id),
    {
        match self.store.get_retro(retro_id) {
            Ok(r) => Some(r),
            Err(_) => None,
        }
    }

    /// Copies of all stored users, in insertion order.
    pub fn all_users(&self) -> (res: Vec<User>)
        ensures
            crate::store::users_view(res@) == self.store.users(),
    {
        self.store.get_users()
    }

    /// A copy of one user, or `None` when the id is unknown.
    pub fn user_by_id(&self, user_id: Id) -> (res: Option<User>)
        requires
            self.wf(),
        ensures
            res is Some <==> has_user_id(self.store.users(), user_id),
            res matches Some(u) ==> u@ == user_with_id(self.store.users(), user_id),
    {
        match self.store.get_user(user_id) {
            Ok(u) => Some(u),
            Err(_) => None,
        }
    }
}

} // verus!
