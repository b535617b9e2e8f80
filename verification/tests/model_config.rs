use retroboard::config::{DbConfig, ServiceConfig, ServiceMode};
use retroboard::events::SubscriptionUpdate;
use retroboard::model::{Card, LoginRequest, RetroParticipant, RetroStep, User};
use retroboard::mutations::find_lane;
use retroboard::service::Coordinator;

#[test]
fn default_config_runs_in_memory() {
    let config = ServiceConfig::default();
    assert!(matches!(config.mode, ServiceMode::MEMORY));
    assert!(config.db.is_none());
}

#[test]
fn db_config_carries_plain_connection_settings() {
    let db = DbConfig {
        host: "localhost:27017".to_string(),
        username: "svc".to_string(),
        password: "pw".to_string(),
        database: "retros".to_string(),
        auth_source: "admin".to_string(),
        replica_set: None,
    };
    let config = ServiceConfig { mode: ServiceMode::MONGO, db: Some(db) };
    assert!(matches!(config.mode, ServiceMode::MONGO));
    assert_eq!(config.db.as_ref().unwrap().database, "retros");
    assert!(config.db.as_ref().unwrap().replica_set.is_none());
}

#[test]
fn login_request_names_the_claimed_user() {
    let login = LoginRequest { username: "alice".to_string() };
    assert_eq!(login.username, "alice");
}

#[test]
fn card_accessors_reflect_ownership_and_votes() {
    let card = Card {
        id: 10,
        retro_id: 1,
        creator_id: 7,
        text: "hello".to_string(),
        subcards: Vec::new(),
        votes: vec![7, 9],
    };
    assert!(card.owned(7));
    assert!(!card.owned(9));
    assert!(card.voted(7));
    assert!(card.voted(9));
    assert!(!card.voted(8));
    assert_eq!(card.votes(), 2);

    let copy = card.clone();
    assert_eq!(copy.text, "hello");
    assert_eq!(copy.votes(), 2);

    let user = User { id: 7, username: "alice".to_string() };
    assert!(user.active_user(7));
    assert!(!user.active_user(8));
}

#[test]
fn update_constructors_carry_the_retro_id() {
    let card = Card {
        id: 10,
        retro_id: 4,
        creator_id: 7,
        text: "hello".to_string(),
        subcards: Vec::new(),
        votes: Vec::new(),
    };
    let ev = SubscriptionUpdate::create_card_added(4, 5, card);
    assert_eq!(ev.retro_id(), 4);

    let ps = vec![RetroParticipant { user: 7, retro_id: 4 }];
    let ev = SubscriptionUpdate::create_user_list_update(4, ps);
    assert_eq!(ev.retro_id(), 4);

    let ev = SubscriptionUpdate::create_step_update(4, RetroStep::Voting);
    assert_eq!(ev.retro_id(), 4);
    match ev {
        SubscriptionUpdate::StepUpdated(s) => assert_eq!(s.step, RetroStep::Voting),
        _ => panic!("expected a step update"),
    }
}

#[test]
fn find_lane_resolves_an_event_lane_id() {
    let mut svc = Coordinator::new();
    let user = svc.create_user("alice".to_string());
    let retro = svc.create_retro("Sprint 1".to_string(), user.id);
    let wanted = retro.lanes[2].id;

    let lane = find_lane(&retro, wanted).unwrap();
    assert_eq!(lane.title, "Needs Improvement");
    assert!(find_lane(&retro, wanted + 1000).is_none());
}
