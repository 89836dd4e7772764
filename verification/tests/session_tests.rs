use tyche::login::{LoginFlow, LoginState};
use tyche::session::{PollResult, SessionStore};

#[test]
fn poll_is_pending_before_submit_and_exact_after() {
    let mut store = SessionStore::new();
    let id = store.create_session();
    assert!(matches!(store.poll_credential(id), PollResult::Pending));
    store.submit_credential(id, "secret-token".to_string());
    match store.poll_credential(id) {
        PollResult::Credential(c) => assert_eq!(c, "secret-token"),
        _ => panic!("expected the submitted credential"),
    }
}

#[test]
fn poll_unknown_id_is_not_found_and_distinct_from_pending() {
    let mut store = SessionStore::new();
    let issued = store.create_session();
    let unknown = issued.wrapping_add(1);
    assert!(matches!(store.poll_credential(unknown), PollResult::NotFound));
    assert!(!matches!(store.poll_credential(unknown), PollResult::Pending));
    assert!(matches!(store.poll_credential(issued), PollResult::Pending));
}

#[test]
fn second_submission_overwrites_the_first() {
    let mut store = SessionStore::new();
    let id = store.create_session();
    store.submit_credential(id, "first".to_string());
    store.submit_credential(id, "second".to_string());
    match store.poll_credential(id) {
        PollResult::Credential(c) => assert_eq!(c, "second"),
        _ => panic!("expected a credential"),
    }
}

#[test]
fn submission_to_unknown_id_is_accepted_upsert() {
    let mut store = SessionStore::new();
    store.submit_credential(77, "dropped-off".to_string());
    match store.poll_credential(77) {
        PollResult::Credential(c) => assert_eq!(c, "dropped-off"),
        _ => panic!("upsert must store against an unissued id"),
    }
}

#[test]
fn http_statuses_distinguish_the_three_outcomes() {
    let mut store = SessionStore::new();
    let id = store.create_session();
    assert_eq!(store.poll_credential(id).http_status(), 302);
    assert_eq!(store.poll_credential(id.wrapping_add(1)).http_status(), 404);
    store.submit_credential(id, "c".to_string());
    assert_eq!(store.poll_credential(id).http_status(), 200);
}

/// The whole handoff: the client polls through its login flow until the
/// deposited credential arrives, and what it holds at the end is exactly
/// what was submitted, untransformed.
#[test]
fn credential_hands_off_end_to_end() {
    let mut store = SessionStore::new();
    let mut flow = LoginFlow::new();
    let id = store.create_session();
    flow.start_login(format!("{:032x}", id));

    // First poll: the web flow has not deposited anything yet.
    let pending = store.poll_credential(id);
    flow.poll_response(pending.http_status(), String::new());
    assert_eq!(flow.state, LoginState::LoggingIn);

    store.submit_credential(id, "issued-by-the-web-flow".to_string());
    match store.poll_credential(id) {
        PollResult::Credential(body) => {
            let answer = PollResult::Credential(body.clone());
            flow.poll_response(answer.http_status(), body);
        }
        _ => panic!("the deposited credential must come back"),
    }
    assert_eq!(flow.state, LoginState::LoggedIn);
    assert_eq!(flow.credential.as_deref(), Some("issued-by-the-web-flow"));
}

#[test]
fn sessions_are_never_deleted() {
    let mut store = SessionStore::new();
    let a = store.create_session();
    let b = store.create_session();
    store.submit_credential(a, "a".to_string());
    if a != b {
        assert_eq!(store.len(), 2);
        assert!(matches!(store.poll_credential(b), PollResult::Pending));
    }
}
