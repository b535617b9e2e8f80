use retroboard::errors::ServiceError;
use retroboard::model::{RetroStep, User};
use retroboard::service::Coordinator;
use retroboard::store::MemoryHandler;

#[test]
fn users_are_stored_and_looked_up_by_id() {
    let mut store = MemoryHandler::new();
    let alice = User { id: 1, username: "alice".to_string() };
    let bob = User { id: 2, username: "bob".to_string() };
    store.create_user(alice).unwrap();
    store.create_user(bob).unwrap();

    let got = store.get_user(1).unwrap();
    assert_eq!(got.username, "alice");
    assert!(matches!(store.get_user(3), Err(ServiceError::NotFound)));

    let all = store.get_users();
    assert_eq!(all.len(), 2);
    assert_eq!(all[0].username, "alice");
    assert_eq!(all[1].username, "bob");
}

#[test]
fn update_user_replaces_the_stored_record() {
    let mut store = MemoryHandler::new();
    store.create_user(User { id: 1, username: "alice".to_string() }).unwrap();

    let renamed = User { id: 1, username: "alicia".to_string() };
    let back = store.update_user(renamed).unwrap();
    assert_eq!(back.username, "alicia");
    assert_eq!(store.get_user(1).unwrap().username, "alicia");

    let unknown = User { id: 9, username: "ghost".to_string() };
    assert!(matches!(store.update_user(unknown), Err(ServiceError::NotFound)));
}

#[test]
fn update_retro_with_unknown_id_is_not_found() {
    let mut svc = Coordinator::new();
    let user = svc.create_user("alice".to_string());
    let retro = svc.create_retro("Sprint 1".to_string(), user.id);

    // A full-aggregate replace of a stored retro goes through.
    let mut copy = svc.retro_by_id(retro.id).unwrap();
    copy.retro_name = "Sprint 1 (renamed)".to_string();
    svc.store.update_retro(copy).unwrap();
    assert_eq!(svc.retro_by_id(retro.id).unwrap().retro_name, "Sprint 1 (renamed)");

    // An aggregate that was never created cannot be updated.
    let mut foreign = svc.retro_by_id(retro.id).unwrap();
    foreign.id = retro.id + 77;
    assert!(matches!(
        svc.store.update_retro(foreign),
        Err(ServiceError::NotFound)
    ));
}

#[test]
fn get_retro_hands_out_copies() {
    let mut svc = Coordinator::new();
    let user = svc.create_user("alice".to_string());
    let retro = svc.create_retro("Sprint 1".to_string(), user.id);

    // Mutating the copy must not change shared state without update_retro.
    let mut copy = svc.retro_by_id(retro.id).unwrap();
    copy.retro_name = "scribbled over".to_string();
    copy.step = RetroStep::Voting;
    drop(copy);

    let stored = svc.retro_by_id(retro.id).unwrap();
    assert_eq!(stored.retro_name, "Sprint 1");
    assert_eq!(stored.step, RetroStep::Writing);
}

#[test]
fn validate_user_finds_the_first_match_by_name() {
    let mut store = MemoryHandler::new();
    store.create_user(User { id: 1, username: "alice".to_string() }).unwrap();
    // Username uniqueness is deliberately not enforced.
    store.create_user(User { id: 2, username: "alice".to_string() }).unwrap();
    store.create_user(User { id: 3, username: "bob".to_string() }).unwrap();

    let found = store.validate_user(&"alice".to_string()).unwrap();
    assert_eq!(found.id, 1);
    let bob = store.validate_user(&"bob".to_string()).unwrap();
    assert_eq!(bob.id, 3);
    assert!(matches!(
        store.validate_user(&"carol".to_string()),
        Err(ServiceError::NotFound)
    ));
}

#[test]
fn error_messages_name_the_failure() {
    assert_eq!(ServiceError::NotFound.message(), "not found");
    assert_eq!(ServiceError::Unauthorized.message(), "unauthorized");
    assert_eq!(ServiceError::PersistenceFailure.message(), "persistence failure");
}
