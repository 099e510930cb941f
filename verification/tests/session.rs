use syllibot::session::{
    Session, SessionAction, SessionEvent, SessionState, SelectionEvent, SELECTION_TIMEOUT_SECS,
};
use syllibot::translation::{decode_response, GatewayError};

fn awaiting_session() -> Session {
    let session = Session::start(77, 1001, 2002, "Bonjour le monde".to_string(), 1_000);
    let (session, actions) = session.identify();
    assert_eq!(session.state, SessionState::AwaitingSelection);
    assert_eq!(session.detected_language, "French");
    assert!(matches!(actions[..], [SessionAction::ShowSelectionUi]));
    session
}

fn gateway_calls(actions: &[SessionAction]) -> usize {
    actions
        .iter()
        .filter(|a| matches!(a, SessionAction::CallGateway(_)))
        .count()
}

#[test]
fn start_sets_expiry_from_timeout() {
    let session = Session::start(1, 2, 3, "hello".to_string(), 500);
    assert_eq!(session.state, SessionState::Created);
    assert_eq!(session.expiry, 500 + SELECTION_TIMEOUT_SECS);
    assert_eq!(session.origin_text, "hello");
}

#[test]
fn identification_failure_closes_without_ui() {
    let text = "12345 67890 !!! ???".to_string();
    let session = Session::start(5, 6, 7, text, 0);
    let (session, actions) = session.identify();
    assert_eq!(session.state, SessionState::Closed);
    assert_eq!(actions.len(), 1);
    match &actions[0] {
        SessionAction::ReplyError(message) => {
            assert!(message.contains("unable to find the language"));
        }
        other => panic!("expected an error reply, got {:?}", action_name(other)),
    }
}

fn action_name(action: &SessionAction) -> &'static str {
    match action {
        SessionAction::ShowSelectionUi => "ShowSelectionUi",
        SessionAction::ReplyError(_) => "ReplyError",
        SessionAction::AckSelection => "AckSelection",
        SessionAction::EditUiProgress(_) => "EditUiProgress",
        SessionAction::CallGateway(_) => "CallGateway",
        SessionAction::ReplyTranslated(_) => "ReplyTranslated",
        SessionAction::DeleteUi => "DeleteUi",
    }
}

#[test]
fn timeout_closes_without_gateway() {
    let session = awaiting_session();
    let (session, actions) = session.step(SessionEvent::Timeout);
    assert_eq!(session.state, SessionState::Closed);
    assert_eq!(gateway_calls(&actions), 0);
    assert!(matches!(actions[..], [SessionAction::DeleteUi]));
}

#[test]
fn mismatched_selection_is_ignored() {
    let session = awaiting_session();
    let wrong_token = SelectionEvent {
        token: 78,
        user: 1001,
        channel: 2002,
        value: "English".to_string(),
    };
    let (session, actions) = session.step(SessionEvent::Selection(wrong_token));
    assert_eq!(session.state, SessionState::AwaitingSelection);
    assert!(actions.is_empty());

    let wrong_user = SelectionEvent {
        token: 77,
        user: 9999,
        channel: 2002,
        value: "English".to_string(),
    };
    let (session, actions) = session.step(SessionEvent::Selection(wrong_user));
    assert_eq!(session.state, SessionState::AwaitingSelection);
    assert!(actions.is_empty());

    let wrong_channel = SelectionEvent {
        token: 77,
        user: 1001,
        channel: 1,
        value: "English".to_string(),
    };
    let (session, actions) = session.step(SessionEvent::Selection(wrong_channel));
    assert_eq!(session.state, SessionState::AwaitingSelection);
    assert!(actions.is_empty());
}

#[test]
fn matching_selection_invokes_gateway_once() {
    let session = awaiting_session();
    let selection = SelectionEvent {
        token: 77,
        user: 1001,
        channel: 2002,
        value: "English".to_string(),
    };
    let (session, actions) = session.step(SessionEvent::Selection(selection));
    assert_eq!(session.state, SessionState::Translating);
    assert_eq!(gateway_calls(&actions), 1);
    assert!(matches!(actions[0], SessionAction::AckSelection));
    match &actions[1] {
        SessionAction::EditUiProgress(message) => {
            assert_eq!(message, "Translation in progress: French to English...");
        }
        other => panic!("expected progress edit, got {:?}", action_name(other)),
    }
    match &actions[2] {
        SessionAction::CallGateway(request) => {
            assert_eq!(request.input, "Bonjour le monde");
            assert_eq!(request.source_language, "French");
            assert_eq!(request.target_language, "English");
            assert_eq!(request.task_string, "text2text");
        }
        other => panic!("expected a gateway call, got {:?}", action_name(other)),
    }
}

#[test]
fn second_selection_is_not_processed() {
    let session = awaiting_session();
    let selection = SelectionEvent {
        token: 77,
        user: 1001,
        channel: 2002,
        value: "English".to_string(),
    };
    let duplicate = SelectionEvent {
        token: 77,
        user: 1001,
        channel: 2002,
        value: "German".to_string(),
    };
    let (session, first_actions) = session.step(SessionEvent::Selection(selection));
    let (session, second_actions) = session.step(SessionEvent::Selection(duplicate));
    assert_eq!(gateway_calls(&first_actions), 1);
    assert_eq!(gateway_calls(&second_actions), 0);
    assert!(second_actions.is_empty());
    assert_eq!(session.state, SessionState::Translating);
}

#[test]
fn successful_reply_closes_session() {
    // the mocked service answers with a plain JSON string
    let body = br#""Hello world""#.to_vec();
    let translated = decode_response(200, &body, false).unwrap();
    assert_eq!(translated, "Hello world");

    let session = awaiting_session();
    let selection = SelectionEvent {
        token: 77,
        user: 1001,
        channel: 2002,
        value: "English".to_string(),
    };
    let (session, _) = session.step(SessionEvent::Selection(selection));
    let (session, actions) = session.step(SessionEvent::GatewayOk(translated));
    assert_eq!(session.state, SessionState::Closed);
    assert_eq!(actions.len(), 2);
    match &actions[0] {
        SessionAction::ReplyTranslated(text) => assert_eq!(text, "Hello world"),
        other => panic!("expected the translated reply, got {:?}", action_name(other)),
    }
    assert!(matches!(actions[1], SessionAction::DeleteUi));
}

#[test]
fn gateway_failure_closes_with_error_reply() {
    // the mocked service answers HTTP 500
    let body = br#""irrelevant""#.to_vec();
    let error = decode_response(500, &body, false).unwrap_err();
    assert_eq!(error, GatewayError::BadStatus(500));

    let session = awaiting_session();
    let selection = SelectionEvent {
        token: 77,
        user: 1001,
        channel: 2002,
        value: "English".to_string(),
    };
    let (session, _) = session.step(SessionEvent::Selection(selection));
    let (session, actions) = session.step(SessionEvent::GatewayErr(error.message()));
    assert_eq!(session.state, SessionState::Closed);
    assert_eq!(actions.len(), 2);
    match &actions[0] {
        SessionAction::ReplyError(message) => {
            assert!(message.contains("500"));
        }
        other => panic!("expected an error reply, got {:?}", action_name(other)),
    }
    assert!(matches!(actions[1], SessionAction::DeleteUi));
    assert_eq!(gateway_calls(&actions), 0);
}

#[test]
fn closed_session_is_inert() {
    let session = awaiting_session();
    let (session, _) = session.step(SessionEvent::Timeout);
    let selection = SelectionEvent {
        token: 77,
        user: 1001,
        channel: 2002,
        value: "English".to_string(),
    };
    let (session, actions) = session.step(SessionEvent::Selection(selection));
    assert_eq!(session.state, SessionState::Closed);
    assert!(actions.is_empty());
}
