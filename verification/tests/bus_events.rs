use retroboard::bus::Poll;
use retroboard::events::SubscriptionUpdate;
use retroboard::model::RetroStep;
use retroboard::service::Coordinator;

#[test]
fn each_mutation_publishes_exactly_one_event() {
    let mut svc = Coordinator::new();
    let user = svc.create_user("alice".to_string());
    let retro = svc.create_retro("Sprint 1".to_string(), user.id);

    let mut cards = svc.bus.card_added(retro.id);
    let mut lists = svc.bus.user_list_updated(retro.id);
    let mut steps = svc.bus.step_update(retro.id);

    // enter_retro: one participant-list event carrying the full list.
    svc.enter_retro(retro.id, user.id).unwrap();
    let ev = lists.poll(&svc.bus.user_updates).unwrap();
    match ev {
        SubscriptionUpdate::UserListUpdated(u) => {
            assert_eq!(u.retro_id, retro.id);
            assert_eq!(u.participants.len(), 1);
            assert_eq!(u.participants[0].user, user.id);
        }
        _ => panic!("expected a participant-list update"),
    }
    assert!(lists.poll(&svc.bus.user_updates).is_none());

    // A second enter changes nothing and publishes nothing.
    svc.enter_retro(retro.id, user.id).unwrap();
    assert!(lists.poll(&svc.bus.user_updates).is_none());

    // add_card: one card-added event carrying the lane and the card.
    let lane_id = retro.lanes[0].id;
    let card = svc
        .add_card(retro.id, lane_id, user.id, "note".to_string())
        .unwrap();
    let ev = cards.poll(&svc.bus.card_additions).unwrap();
    match ev {
        SubscriptionUpdate::CardAdded(c) => {
            assert_eq!(c.retro_id, retro.id);
            assert_eq!(c.lane_id, lane_id);
            assert_eq!(c.card.id, card.id);
            assert_eq!(c.card.text, "note");
        }
        _ => panic!("expected a card-added update"),
    }
    assert!(cards.poll(&svc.bus.card_additions).is_none());

    // edit_card republishes the card shape with the new text.
    svc.edit_card(retro.id, card.id, "edited".to_string()).unwrap();
    let ev = cards.poll(&svc.bus.card_additions).unwrap();
    match ev {
        SubscriptionUpdate::CardAdded(c) => {
            assert_eq!(c.card.id, card.id);
            assert_eq!(c.card.text, "edited");
        }
        _ => panic!("expected a card-added update"),
    }

    // vote_card also rides on the card topic.
    svc.vote_card(retro.id, card.id, user.id, true).unwrap();
    let ev = cards.poll(&svc.bus.card_additions).unwrap();
    match ev {
        SubscriptionUpdate::CardAdded(c) => {
            assert_eq!(c.card.id, card.id);
            assert!(c.card.voted(user.id));
        }
        _ => panic!("expected a card-added update"),
    }

    // update_retro_step: one step event with the new step.
    svc.update_retro_step(retro.id, RetroStep::Grouping).unwrap();
    let ev = steps.poll(&svc.bus.step_updates).unwrap();
    match ev {
        SubscriptionUpdate::StepUpdated(s) => {
            assert_eq!(s.retro_id, retro.id);
            assert_eq!(s.step, RetroStep::Grouping);
        }
        _ => panic!("expected a step update"),
    }
    assert!(steps.poll(&svc.bus.step_updates).is_none());

    // No cross-talk: the other topics saw nothing from the step change.
    assert!(cards.poll(&svc.bus.card_additions).is_none());
    assert!(lists.poll(&svc.bus.user_updates).is_none());
}

#[test]
fn subscriber_for_one_retro_never_sees_the_other() {
    let mut svc = Coordinator::new();
    let user = svc.create_user("alice".to_string());
    let retro_a = svc.create_retro("A".to_string(), user.id);
    let retro_b = svc.create_retro("B".to_string(), user.id);

    let mut cards_a = svc.bus.card_added(retro_a.id);
    let lane_a = retro_a.lanes[0].id;
    let lane_b = retro_b.lanes[0].id;

    // A mixture of mutations against both retros.
    let mut expected_a: Vec<String> = Vec::new();
    for round in 0..5u32 {
        let text_a = format!("a{}", round);
        let text_b = format!("b{}", round);
        svc.add_card(retro_a.id, lane_a, user.id, text_a.clone()).unwrap();
        expected_a.push(text_a);
        svc.add_card(retro_b.id, lane_b, user.id, text_b).unwrap();
    }

    let mut received: Vec<String> = Vec::new();
    while let Some(ev) = cards_a.poll(&svc.bus.card_additions) {
        match ev {
            SubscriptionUpdate::CardAdded(c) => {
                assert_eq!(c.retro_id, retro_a.id);
                received.push(c.card.text);
            }
            _ => panic!("only card events ride on the card topic here"),
        }
    }
    // Every event of retro A arrived, in publish order, and none of B.
    assert_eq!(received, expected_a);
}

#[test]
fn slow_subscriber_observes_a_gap_not_a_stall() {
    let mut svc = Coordinator::new();
    let user = svc.create_user("alice".to_string());
    let retro = svc.create_retro("Sprint 1".to_string(), user.id);
    let lane = retro.lanes[0].id;

    // Subscribe first, then publish more than the topic buffers (100).
    let mut raw = svc.bus.card_additions.subscribe();
    let total = 105u32;
    for k in 0..total {
        svc.add_card(retro.id, lane, user.id, format!("c{}", k)).unwrap();
    }

    // The oldest five updates were dropped in favour of the publisher.
    let first = raw.poll(&svc.bus.card_additions);
    assert!(matches!(first, Poll::Lagged));

    let mut texts: Vec<String> = Vec::new();
    loop {
        match raw.poll(&svc.bus.card_additions) {
            Poll::Event(SubscriptionUpdate::CardAdded(c)) => texts.push(c.card.text),
            Poll::Event(_) => panic!("only card events were published"),
            Poll::Lagged => panic!("a reader that keeps pace lags only once"),
            Poll::Empty => break,
        }
    }
    assert_eq!(texts.len(), 100);
    assert_eq!(texts[0], "c5");
    assert_eq!(texts[99], "c104");
}

#[test]
fn subscription_sees_only_what_was_published_after_it() {
    let mut svc = Coordinator::new();
    let user = svc.create_user("alice".to_string());
    let retro = svc.create_retro("Sprint 1".to_string(), user.id);
    let lane = retro.lanes[0].id;

    svc.add_card(retro.id, lane, user.id, "before".to_string()).unwrap();
    let mut cards = svc.bus.card_added(retro.id);
    svc.add_card(retro.id, lane, user.id, "after".to_string()).unwrap();

    let ev = cards.poll(&svc.bus.card_additions).unwrap();
    match ev {
        SubscriptionUpdate::CardAdded(c) => assert_eq!(c.card.text, "after"),
        _ => panic!("expected a card-added update"),
    }
    assert!(cards.poll(&svc.bus.card_additions).is_none());
}
