//! Messages published on the event bus.
//!
//! Every successful state-changing mutation publishes exactly one of
//! these; each carries the id of the retro it belongs to, and the new
//! authoritative sub-state (the full card, the full participant list, or
//! the new step), so clients reconcile from the message alone.

use vstd::prelude::*;

use crate::model::{Card, CardV, Id, RetroParticipant, RetroStep};

verus! {

/// A card was added to a lane, or an existing card was rewritten in
/// place; both share this one shape, distinguished client-side by
/// whether the card id was already known.
pub struct CardAdded {
    pub retro_id: Id,
    pub lane_id: Id,
    pub card: Card,
}

/// Mathematical view of a `CardAdded`.
#[verifier::ext_equal]
pub struct CardAddedV {
    pub retro_id: Id,
    pub lane_id: Id,
    pub card: CardV,
}

impl View for CardAdded {
    type V = CardAddedV;

    open spec fn view(&self) -> CardAddedV {
        CardAddedV { retro_id: self.retro_id, lane_id: self.lane_id, card: self.card@ }
    }
}

/// The authoritative, full participant list of a retro after a change.
pub struct UserListUpdated {
    pub retro_id: Id,
    pub participants: Vec<RetroParticipant>,
}

/// Mathematical view of a `UserListUpdated`.
#[verifier::ext_equal]
pub struct UserListUpdatedV {
    pub retro_id: Id,
    pub participants: Seq<RetroParticipant>,
}

impl View for UserListUpdated {
    type V = UserListUpdatedV;

    open spec fn view(&self) -> UserListUpdatedV {
        UserListUpdatedV { retro_id: self.retro_id, participants: self.participants@ }
    }
}

/// A retro moved to a workflow step.
#[derive(Clone, Copy, Debug, PartialEq, Eq, Structural)]
pub struct StepUpdated {
    pub retro_id: Id,
    pub step: RetroStep,
}

/// One message on the event bus.
pub enum SubscriptionUpdate {
    CardAdded(CardAdded),
    UserListUpdated(UserListUpdated),
    StepUpdated(StepUpdated),
}

/// Mathematical view of a `SubscriptionUpdate`.
#[verifier::ext_equal]
pub enum SubscriptionUpdateV {
    CardAdded(CardAddedV),
    UserListUpdated(UserListUpdatedV),
    StepUpdated(StepUpdated),
}

impl SubscriptionUpdateV {
    /// The retro this update belongs to; subscribers filter on it.
    pub open spec fn retro_id(self) -> Id {
        match self {
            SubscriptionUpdateV::CardAdded(c) => c.retro_id,
            SubscriptionUpdateV::UserListUpdated(u) => u.retro_id,
            SubscriptionUpdateV::StepUpdated(s) => s.retro_id,
        }
    }
}

/// The view of a card-added (or card-updated) message.
pub open spec fn card_event(retro_id: Id, lane_id: Id, card: CardV) -> SubscriptionUpdateV {
    SubscriptionUpdateV::CardAdded((CardAddedV { retro_id, lane_id, card }))
}

/// The view of a participant-list message.
pub open spec fn user_list_event(retro_id: Id, participants: Seq<RetroParticipant>) -> SubscriptionUpdateV {
    SubscriptionUpdateV::UserListUpdated((UserListUpdatedV { retro_id, participants }))
}

/// The view of a step-change message.
pub open spec fn step_event(retro_id: Id, step: RetroStep) -> SubscriptionUpdateV {
    SubscriptionUpdateV::StepUpdated((StepUpdated { retro_id, step }))
}

impl View for SubscriptionUpdate {
    type V = SubscriptionUpdateV;

    open spec fn view(&self) -> SubscriptionUpdateV {
        match *self {
            SubscriptionUpdate::CardAdded(c) => SubscriptionUpdateV::CardAdded(c@),
            SubscriptionUpdate::UserListUpdated(u) => SubscriptionUpdateV::UserListUpdated(u@),
            SubscriptionUpdate::StepUpdated(s) => SubscriptionUpdateV::StepUpdated(s),
        }
    }
}

impl SubscriptionUpdate {
    /// The retro id carried by this update, as executable code.
    pub fn retro_id(&self) -> (res: Id)
        ensures
            res == self@.retro_id(),
    {
        match self {
            SubscriptionUpdate::CardAdded(c) => c.retro_id,
            SubscriptionUpdate::UserListUpdated(u) => u.retro_id,
            SubscriptionUpdate::StepUpdated(s) => s.retro_id,
        }
    }

    /// Wrap a card addition (or in-place card update).
    pub fn create_card_added(retro_id: Id, lane_id: Id, card: Card) -> (res: Self)
        ensures
            res@ matches SubscriptionUpdateV::CardAdded(c) && c.retro_id == retro_id
                && c.lane_id == lane_id && c.card == card@,
    {
        let card_added = CardAdded { retro_id, lane_id, card };
        Self::CardAdded(card_added)
    }

    /// Wrap a full participant-list update.
    pub fn create_user_list_update(retro_id: Id, participants: Vec<RetroParticipant>) -> (res:
        Self)
        ensures
            res@ matches SubscriptionUpdateV::UserListUpdated(u) && u.retro_id == retro_id
                && u.participants == participants@,
    {
        let user_list_update = UserListUpdated { retro_id, participants };
        Self::UserListUpdated(user_list_update)
    }

    /// Wrap a step change.
    pub fn create_step_update(retro_id: Id, step: RetroStep) -> (res: Self)
        ensures
            res@ matches SubscriptionUpdateV::StepUpdated(s) && s.retro_id == retro_id && s.step
                == step,
    {
        let step_update = StepUpdated { retro_id, step };
        Self::StepUpdated(step_update)
    }
}

impl Clone for SubscriptionUpdate {
    fn clone(&self) -> (res: Self)
        ensures
            res@ == self@,
    {
        match self {
            SubscriptionUpdate::CardAdded(c) => SubscriptionUpdate::CardAdded(
                CardAdded { retro_id: c.retro_id, lane_id: c.lane_id, card: c.card.clone() },
            ),
            SubscriptionUpdate::UserListUpdated(u) => {
                let mut participants: Vec<RetroParticipant> = Vec::new();
                let mut i: usize = 0;
                while i < u.participants.len()
                    invariant
                        i <= u.participants.len(),
                        participants@ == u.participants@.subrange(0, i as int),
                    decreases u.participants.len() - i,
                {
                    participants.push(u.participants[i]);
                    i += 1;
                }
                proof {
                    assert(participants@ =~= u.participants@);
                }
                SubscriptionUpdate::UserListUpdated(
                    UserListUpdated { retro_id: u.retro_id, participants },
                )
            },
            SubscriptionUpdate::StepUpdated(s) => SubscriptionUpdate::StepUpdated(*s),
        }
    }
}

} // verus!
