//! Entity model: users, retros, lanes, cards, participants.
//!
//! Each executable record type has a mathematical view (`UserV`, `CardV`,
//! `LaneV`, `RetroV`) over `Seq`, `Set` and plain integers; every contract
//! in the crate speaks of those views.  Identifiers are opaque
//! globally-unique tokens, modelled as plain integers; any string encoding
//! of them belongs to the transport layer outside this crate.

use vstd::prelude::*;

verus! {

/// Opaque identifier of a user, retro, lane or card.
pub type Id = u64;

/// Workflow phase of a retro.  Any phase may be set at any time; no
/// transition table is enforced, a deliberate permissiveness (a manual
/// override is always possible).
#[derive(Clone, Copy, Debug, PartialEq, Eq, Structural)]
pub enum RetroStep {
    Writing,
    Grouping,
    Voting,
    Reviewing,
}

/// A registered user.
pub struct User {
    pub id: Id,
    pub username: String,
}

/// Mathematical view of a `User`.
#[verifier::ext_equal]
pub struct UserV {
    pub id: Id,
    pub username: Seq<char>,
}

impl View for User {
    type V = UserV;

    open spec fn view(&self) -> UserV {
        UserV { id: self.id, username: self.username@ }
    }
}

impl Clone for User {
    fn clone(&self) -> (res: Self)
        ensures
            res == *self,
    {
        User { id: self.id, username: self.username.clone() }
    }
}

/// A login request carries only the claimed username; credential checks
/// themselves happen outside this crate.
pub struct LoginRequest {
    pub username: String,
}

/// A user's membership record within one retro.
#[derive(Clone, Copy, Debug, PartialEq, Eq, Structural)]
pub struct RetroParticipant {
    pub user: Id,
    pub retro_id: Id,
}

/// A text note in a lane, carrying nested subcards and a vote set.
pub struct Card {
    pub id: Id,
    pub retro_id: Id,
    pub creator_id: Id,
    pub text: String,
    pub subcards: Vec<Card>,
    pub votes: Vec<Id>,
}

/// Mathematical view of a `Card`: the text as a character sequence, the
/// subcard tree viewed recursively, and the votes as a duplicate-free
/// sequence of user ids, read as a set.
#[verifier::ext_equal]
pub struct CardV {
    pub id: Id,
    pub retro_id: Id,
    pub creator_id: Id,
    pub text: Seq<char>,
    pub subcards: Seq<CardV>,
    pub votes: Seq<Id>,
}

impl CardV {
    /// Whether `user` currently has a vote on this card.
    pub open spec fn has_vote(self, user: Id) -> bool {
        self.votes.contains(user)
    }
}

/// Recursive view of a card; the recursion descends through the subcard
/// vector.
pub open spec fn card_view(c: Card) -> CardV
    decreases c,
{
    CardV {
        id: c.id,
        retro_id: c.retro_id,
        creator_id: c.creator_id,
        text: c.text@,
        subcards: cards_view(c.subcards@),
        votes: c.votes@,
    }
}

/// Elementwise view of a sequence of cards.
pub open spec fn cards_view(s: Seq<Card>) -> Seq<CardV>
    decreases s,
{
    if s.len() == 0 {
        Seq::empty()
    } else {
        cards_view(s.drop_last()).push(card_view(s.last()))
    }
}

/// `cards_view` keeps the length of the sequence.
pub broadcast proof fn lemma_cards_view_len(s: Seq<Card>)
    ensures
        #[trigger] cards_view(s).len() == s.len(),
    decreases s.len(),
{
    if s.len() > 0 {
        lemma_cards_view_len(s.drop_last());
    }
}

/// `cards_view` commutes with appending a card.
pub broadcast proof fn lemma_cards_view_push(s: Seq<Card>, c: Card)
    ensures
        #[trigger] cards_view(s.push(c)) == cards_view(s).push(card_view(c)),
{
    assert(s.push(c).drop_last() =~= s);
    assert(s.push(c).last() == c);
}

/// `cards_view` commutes with replacing one card.
pub broadcast proof fn lemma_cards_view_update(s: Seq<Card>, i: int, c: Card)
    requires
        0 <= i < s.len(),
    ensures
        #[trigger] cards_view(s.update(i, c)) == cards_view(s).update(i, card_view(c)),
    decreases s.len(),
{
    lemma_cards_view_len(s);
    lemma_cards_view_len(s.update(i, c));
    assert forall|j: int| 0 <= j < s.len() implies cards_view(s.update(i, c))[j] == cards_view(
        s,
    ).update(i, card_view(c))[j] by {
        lemma_cards_view_index(s.update(i, c), j);
        lemma_cards_view_index(s, j);
    }
    assert(cards_view(s.update(i, c)) =~= cards_view(s).update(i, card_view(c)));
}

/// `cards_view` maps each element to its view.
pub broadcast proof fn lemma_cards_view_index(s: Seq<Card>, i: int)
    requires
        0 <= i < s.len(),
    ensures
        #[trigger] cards_view(s)[i] == card_view(s[i]),
    decreases s.len(),
{
    lemma_cards_view_len(s.drop_last());
    if i < s.len() - 1 {
        lemma_cards_view_index(s.drop_last(), i);
    }
}

impl View for Card {
    type V = CardV;

    open spec fn view(&self) -> CardV {
        card_view(*self)
    }
}

impl Clone for Card {
    fn clone(&self) -> (res: Self)
        ensures
            res@ == self@,
        decreases *self,
    {
        let mut subcards: Vec<Card> = Vec::new();
        let mut i: usize = 0;
        while i < self.subcards.len()
            invariant
                i <= self.subcards.len(),
                subcards@.len() == i as int,
                forall|j: int| 0 <= j < i ==> #[trigger] subcards@[j]@ == self.subcards@[j]@,
            decreases self.subcards.len() - i,
        {
            proof {
                assert(decreases_to!(*self => self.subcards@[i as int]));
            }
            subcards.push(self.subcards[i].clone());
            i += 1;
        }
        let mut votes: Vec<Id> = Vec::new();
        let mut k: usize = 0;
        while k < self.votes.len()
            invariant
                k <= self.votes.len(),
                votes@ == self.votes@.subrange(0, k as int),
            decreases self.votes.len() - k,
        {
            votes.push(self.votes[k]);
            k += 1;
        }
        let res = Card {
            id: self.id,
            retro_id: self.retro_id,
            creator_id: self.creator_id,
            text: self.text.clone(),
            subcards,
            votes,
        };
        proof {
            assert(res.votes@ =~= self.votes@);
            lemma_cards_view_len(res.subcards@);
            lemma_cards_view_len(self.subcards@);
            assert forall|j: int|
                0 <= j < self.subcards@.len() implies cards_view(res.subcards@)[j] == cards_view(
                self.subcards@,
            )[j] by {
                assert(res.subcards@[j]@ == self.subcards@[j]@);
                lemma_cards_view_index(res.subcards@, j);
                lemma_cards_view_index(self.subcards@, j);
            }
            assert(res@.subcards =~= self@.subcards);
            assert(res@ =~= self@);
        }
        res
    }
}

impl User {
    /// Whether this user is the acting user.
    pub fn active_user(&self, active_user_id: Id) -> (res: bool)
        ensures
            res == (self.id == active_user_id),
    {
        self.id == active_user_id
    }
}

impl Card {
    /// Whether the acting user authored this card.
    pub fn owned(&self, active_user_id: Id) -> (res: bool)
        ensures
            res == (self@.creator_id == active_user_id),
    {
        self.creator_id == active_user_id
    }

    /// Whether the acting user currently votes for this card.
    pub fn voted(&self, active_user_id: Id) -> (res: bool)
        ensures
            res == self@.has_vote(active_user_id),
    {
        let n = self.votes.len();
        let mut i: usize = 0;
        while i < n
            invariant
                i <= n,
                n == self.votes.len(),
                forall|k: int| 0 <= k < i ==> self.votes@[k] != active_user_id,
            decreases n - i,
        {
            if self.votes[i] == active_user_id {
                proof {
                    assert(self@.votes[i as int] == active_user_id);
                }
                return true;
            }
            i += 1;
        }
        proof {
            assert(!self@.votes.contains(active_user_id));
        }
        false
    }

    /// How many votes the card carries.
    pub fn votes(&self) -> (res: usize)
        ensures
            res == self@.votes.len(),
    {
        self.votes.len()
    }
}

/// A named, prioritized column of cards within a retro.
pub struct Lane {
    pub id: Id,
    pub title: String,
    pub cards: Vec<Card>,
    pub priority: i32,
}

/// Mathematical view of a `Lane`.
#[verifier::ext_equal]
pub struct LaneV {
    pub id: Id,
    pub title: Seq<char>,
    pub cards: Seq<CardV>,
    pub priority: i32,
}

impl View for Lane {
    type V = LaneV;

    open spec fn view(&self) -> LaneV {
        LaneV {
            id: self.id,
            title: self.title@,
            cards: cards_view(self.cards@),
            priority: self.priority,
        }
    }
}

impl Clone for Lane {
    fn clone(&self) -> (res: Self)
        ensures
            res@ == self@,
    {
        let mut cards: Vec<Card> = Vec::new();
        let mut i: usize = 0;
        while i < self.cards.len()
            invariant
                i <= self.cards.len(),
                cards@.len() == i as int,
                forall|j: int| 0 <= j < i ==> #[trigger] cards@[j]@ == self.cards@[j]@,
            decreases self.cards.len() - i,
        {
            cards.push(self.cards[i].clone());
            i += 1;
        }
        let res = Lane {
            id: self.id,
            title: self.title.clone(),
            cards,
            priority: self.priority,
        };
        proof {
            lemma_cards_view_len(res.cards@);
            lemma_cards_view_len(self.cards@);
            assert forall|j: int|
                0 <= j < self.cards@.len() implies cards_view(res.cards@)[j] == cards_view(
                self.cards@,
            )[j] by {
                assert(res.cards@[j]@ == self.cards@[j]@);
                lemma_cards_view_index(res.cards@, j);
                lemma_cards_view_index(self.cards@, j);
            }
            assert(res@.cards =~= self@.cards);
            assert(res@ =~= self@);
        }
        res
    }
}

/// The root aggregate: a retrospective-board session.  All mutations to
/// lanes, cards and participants go through reading, changing and
/// rewriting a whole `Retro`.
pub struct Retro {
    pub id: Id,
    pub retro_name: String,
    pub creator_id: Id,
    pub step: RetroStep,
    pub created_at: String,
    pub participants: Vec<RetroParticipant>,
    pub lanes: Vec<Lane>,
}

/// Mathematical view of a `Retro`.
#[verifier::ext_equal]
pub struct RetroV {
    pub id: Id,
    pub retro_name: Seq<char>,
    pub creator_id: Id,
    pub step: RetroStep,
    pub created_at: Seq<char>,
    pub participants: Seq<RetroParticipant>,
    pub lanes: Seq<LaneV>,
}

impl View for Retro {
    type V = RetroV;

    open spec fn view(&self) -> RetroV {
        RetroV {
            id: self.id,
            retro_name: self.retro_name@,
            creator_id: self.creator_id,
            step: self.step,
            created_at: self.created_at@,
            participants: self.participants@,
            lanes: Seq::new(self.lanes@.len(), |i: int| self.lanes@[i]@),
        }
    }
}

impl Clone for Retro {
    fn clone(&self) -> (res: Self)
        ensures
            res@ == self@,
    {
        let mut participants: Vec<RetroParticipant> = Vec::new();
        let mut i: usize = 0;
        while i < self.participants.len()
            invariant
                i <= self.participants.len(),
                participants@ == self.participants@.subrange(0, i as int),
            decreases self.participants.len() - i,
        {
            participants.push(self.participants[i]);
            i += 1;
        }
        let mut lanes: Vec<Lane> = Vec::new();
        let mut k: usize = 0;
        while k < self.lanes.len()
            invariant
                k <= self.lanes.len(),
                lanes@.len() == k as int,
                forall|j: int| 0 <= j < k ==> #[trigger] lanes@[j]@ == self.lanes@[j]@,
            decreases self.lanes.len() - k,
        {
            lanes.push(self.lanes[k].clone());
            k += 1;
        }
        let res = Retro {
            id: self.id,
            retro_name: self.retro_name.clone(),
            creator_id: self.creator_id,
            step: self.step,
            created_at: self.created_at.clone(),
            participants,
            lanes,
        };
        proof {
            assert(res.participants@ =~= self.participants@);
            assert(res@.lanes =~= self@.lanes);
            assert(res@ =~= self@);
        }
        res
    }
}

} // verus!
