use retroboard::errors::ServiceError;
use retroboard::model::RetroStep;
use retroboard::service::Coordinator;

#[test]
fn create_retro_seeds_three_lanes_and_writing_step() {
    let mut svc = Coordinator::new();
    let creator = svc.create_user("alice".to_string());
    let retro = svc.create_retro("Sprint 1".to_string(), creator.id);

    assert_eq!(retro.lanes.len(), 3);
    assert_eq!(retro.lanes[0].title, "Good");
    assert_eq!(retro.lanes[0].priority, 1);
    assert_eq!(retro.lanes[1].title, "Bad");
    assert_eq!(retro.lanes[1].priority, 2);
    assert_eq!(retro.lanes[2].title, "Needs Improvement");
    assert_eq!(retro.lanes[2].priority, 3);
    assert_eq!(retro.step, RetroStep::Writing);
    assert_eq!(retro.retro_name, "Sprint 1");
    assert_eq!(retro.creator_id, creator.id);
    assert!(retro.participants.is_empty());
    assert!(retro.lanes.iter().all(|l| l.cards.is_empty()));

    let lane_ids: Vec<u64> = retro.lanes.iter().map(|l| l.id).collect();
    assert_ne!(lane_ids[0], lane_ids[1]);
    assert_ne!(lane_ids[0], lane_ids[2]);
    assert_ne!(lane_ids[1], lane_ids[2]);
}

#[test]
fn enter_retro_is_idempotent() {
    let mut svc = Coordinator::new();
    let user = svc.create_user("alice".to_string());
    let retro = svc.create_retro("Sprint 1".to_string(), user.id);

    let first = svc.enter_retro(retro.id, user.id).unwrap();
    assert_eq!(first.len(), 1);
    assert_eq!(first[0].user, user.id);
    assert_eq!(first[0].retro_id, retro.id);

    let second = svc.enter_retro(retro.id, user.id).unwrap();
    assert_eq!(second.len(), 1);
    assert_eq!(second[0].user, user.id);

    let stored = svc.retro_by_id(retro.id).unwrap();
    assert_eq!(stored.participants.len(), 1);
}

#[test]
fn leave_retro_removes_membership() {
    let mut svc = Coordinator::new();
    let alice = svc.create_user("alice".to_string());
    let bob = svc.create_user("bob".to_string());
    let retro = svc.create_retro("Sprint 1".to_string(), alice.id);

    svc.enter_retro(retro.id, alice.id).unwrap();
    svc.enter_retro(retro.id, bob.id).unwrap();
    let after_leave = svc.leave_retro(retro.id, alice.id).unwrap();
    assert_eq!(after_leave.len(), 1);
    assert_eq!(after_leave[0].user, bob.id);

    // Leaving again is harmless and still reports the full list.
    let again = svc.leave_retro(retro.id, alice.id).unwrap();
    assert_eq!(again.len(), 1);
}

#[test]
fn add_card_lands_in_the_targeted_lane() {
    let mut svc = Coordinator::new();
    let user = svc.create_user("alice".to_string());
    let retro = svc.create_retro("Sprint 1".to_string(), user.id);
    let lane_id = retro.lanes[1].id;

    let card = svc
        .add_card(retro.id, lane_id, user.id, "too many meetings".to_string())
        .unwrap();
    assert_eq!(card.text, "too many meetings");
    assert_eq!(card.retro_id, retro.id);
    assert_eq!(card.creator_id, user.id);
    assert!(card.subcards.is_empty());
    assert!(card.votes.is_empty());

    let stored = svc.retro_by_id(retro.id).unwrap();
    assert_eq!(stored.lanes[1].cards.len(), 1);
    assert_eq!(stored.lanes[1].cards[0].id, card.id);
    assert_eq!(stored.lanes[1].cards[0].text, "too many meetings");
    assert!(stored.lanes[0].cards.is_empty());
    assert!(stored.lanes[2].cards.is_empty());
}

#[test]
fn add_card_with_foreign_lane_changes_nothing() {
    let mut svc = Coordinator::new();
    let user = svc.create_user("alice".to_string());
    let retro = svc.create_retro("Sprint 1".to_string(), user.id);
    let bogus_lane = retro.id + 1000;

    let res = svc.add_card(retro.id, bogus_lane, user.id, "lost".to_string());
    assert!(matches!(res, Err(ServiceError::NotFound)));

    let stored = svc.retro_by_id(retro.id).unwrap();
    assert!(stored.lanes.iter().all(|l| l.cards.is_empty()));
}

#[test]
fn edit_card_round_trip_keeps_one_card() {
    let mut svc = Coordinator::new();
    let user = svc.create_user("alice".to_string());
    let retro = svc.create_retro("Sprint 1".to_string(), user.id);
    let lane_id = retro.lanes[0].id;

    let card = svc
        .add_card(retro.id, lane_id, user.id, "first draft".to_string())
        .unwrap();
    let edited = svc
        .edit_card(retro.id, card.id, "final wording".to_string())
        .unwrap();
    assert_eq!(edited.id, card.id);
    assert_eq!(edited.text, "final wording");

    let stored = svc.retro_by_id(retro.id).unwrap();
    let total_cards: usize = stored.lanes.iter().map(|l| l.cards.len()).sum();
    assert_eq!(total_cards, 1);
    assert_eq!(stored.lanes[0].cards[0].id, card.id);
    assert_eq!(stored.lanes[0].cards[0].text, "final wording");
}

#[test]
fn edit_card_unknown_id_is_not_found() {
    let mut svc = Coordinator::new();
    let user = svc.create_user("alice".to_string());
    let retro = svc.create_retro("Sprint 1".to_string(), user.id);

    let res = svc.edit_card(retro.id, 9999, "nothing".to_string());
    assert!(matches!(res, Err(ServiceError::NotFound)));
}

#[test]
fn vote_card_toggles_for_the_creator() {
    let mut svc = Coordinator::new();
    let u1 = svc.create_user("alice".to_string());
    let retro = svc.create_retro("Sprint 1".to_string(), u1.id);
    let good_lane = retro.lanes[0].id;

    let card = svc
        .add_card(retro.id, good_lane, u1.id, "Great teamwork".to_string())
        .unwrap();
    assert_eq!(card.text, "Great teamwork");

    let on = svc.vote_card(retro.id, card.id, u1.id, true).unwrap();
    assert!(on.voted(u1.id));
    assert_eq!(on.votes(), 1);
    let stored = svc.retro_by_id(retro.id).unwrap();
    assert!(stored.lanes[0].cards[0].voted(u1.id));

    // Voting on again keeps a single vote.
    let still_on = svc.vote_card(retro.id, card.id, u1.id, true).unwrap();
    assert_eq!(still_on.votes(), 1);

    let off = svc.vote_card(retro.id, card.id, u1.id, false).unwrap();
    assert!(!off.voted(u1.id));
    assert_eq!(off.votes(), 0);
    let stored = svc.retro_by_id(retro.id).unwrap();
    assert!(!stored.lanes[0].cards[0].voted(u1.id));
    assert_eq!(stored.lanes[0].cards[0].votes(), 0);
}

#[test]
fn vote_card_by_non_creator_is_unauthorized() {
    let mut svc = Coordinator::new();
    let alice = svc.create_user("alice".to_string());
    let bob = svc.create_user("bob".to_string());
    let retro = svc.create_retro("Sprint 1".to_string(), alice.id);
    let lane = retro.lanes[0].id;
    let card = svc
        .add_card(retro.id, lane, alice.id, "Great teamwork".to_string())
        .unwrap();

    let res = svc.vote_card(retro.id, card.id, bob.id, true);
    assert!(matches!(res, Err(ServiceError::Unauthorized)));

    let stored = svc.retro_by_id(retro.id).unwrap();
    assert_eq!(stored.lanes[0].cards[0].votes(), 0);
}

#[test]
fn vote_card_unknown_card_is_not_found() {
    let mut svc = Coordinator::new();
    let alice = svc.create_user("alice".to_string());
    let retro = svc.create_retro("Sprint 1".to_string(), alice.id);

    let res = svc.vote_card(retro.id, 424242, alice.id, true);
    assert!(matches!(res, Err(ServiceError::NotFound)));
}

#[test]
fn update_retro_step_accepts_any_transition() {
    let mut svc = Coordinator::new();
    let user = svc.create_user("alice".to_string());
    let retro = svc.create_retro("Sprint 1".to_string(), user.id);

    let r1 = svc.update_retro_step(retro.id, RetroStep::Reviewing).unwrap();
    assert_eq!(r1.step, RetroStep::Reviewing);

    // No transition table is validated: going backwards is permitted.
    let r2 = svc.update_retro_step(retro.id, RetroStep::Writing).unwrap();
    assert_eq!(r2.step, RetroStep::Writing);

    let stored = svc.retro_by_id(retro.id).unwrap();
    assert_eq!(stored.step, RetroStep::Writing);
}

#[test]
fn mutations_on_unknown_retro_are_not_found() {
    let mut svc = Coordinator::new();
    let user = svc.create_user("alice".to_string());

    assert_eq!(svc.enter_retro(7, user.id), Err(ServiceError::NotFound));
    assert_eq!(svc.leave_retro(7, user.id), Err(ServiceError::NotFound));
    assert!(matches!(
        svc.add_card(7, 8, user.id, "x".to_string()),
        Err(ServiceError::NotFound)
    ));
    assert!(matches!(
        svc.edit_card(7, 8, "x".to_string()),
        Err(ServiceError::NotFound)
    ));
    assert!(matches!(
        svc.vote_card(7, 8, user.id, true),
        Err(ServiceError::NotFound)
    ));
    assert!(matches!(
        svc.update_retro_step(7, RetroStep::Voting),
        Err(ServiceError::NotFound)
    ));
    assert!(svc.retro_by_id(7).is_none());
}

#[test]
fn scenario_sprint_one() {
    let mut svc = Coordinator::new();
    let u1 = svc.create_user("alice".to_string());
    let retro = svc.create_retro("Sprint 1".to_string(), u1.id);
    assert_eq!(retro.lanes.len(), 3);

    let participants = svc.enter_retro(retro.id, u1.id).unwrap();
    assert_eq!(participants.len(), 1);
    assert_eq!(participants[0].user, u1.id);

    let good_lane = retro.lanes.iter().find(|l| l.title == "Good").unwrap().id;
    let card = svc
        .add_card(retro.id, good_lane, u1.id, "Great teamwork".to_string())
        .unwrap();
    assert_eq!(card.text, "Great teamwork");
    let after_add = svc.retro_by_id(retro.id).unwrap();
    assert_eq!(after_add.lanes[0].cards[0].text, "Great teamwork");

    svc.vote_card(retro.id, card.id, u1.id, true).unwrap();
    let after_vote = svc.retro_by_id(retro.id).unwrap();
    assert!(after_vote.lanes[0].cards[0].voted(u1.id));

    svc.vote_card(retro.id, card.id, u1.id, false).unwrap();
    let after_unvote = svc.retro_by_id(retro.id).unwrap();
    assert!(!after_unvote.lanes[0].cards[0].voted(u1.id));
}

#[test]
fn queries_list_everything_in_insertion_order() {
    let mut svc = Coordinator::new();
    let alice = svc.create_user("alice".to_string());
    let bob = svc.create_user("bob".to_string());
    let r1 = svc.create_retro("one".to_string(), alice.id);
    let r2 = svc.create_retro("two".to_string(), bob.id);

    let users = svc.all_users();
    assert_eq!(users.len(), 2);
    assert_eq!(users[0].username, "alice");
    assert_eq!(users[1].username, "bob");

    let retros = svc.all_retros();
    assert_eq!(retros.len(), 2);
    assert_eq!(retros[0].id, r1.id);
    assert_eq!(retros[1].id, r2.id);

    assert_eq!(svc.user_by_id(alice.id).unwrap().username, "alice");
    assert!(svc.user_by_id(999).is_none());
}
