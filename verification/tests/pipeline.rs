use base64::engine::general_purpose;
use base64::Engine as _;
use syllibot::pipeline::{PipeAction, PipeEvent, PipeState, Pipeline};

fn fresh_pipeline() -> Pipeline {
    Pipeline::start(
        "https://cdn.example/clip.ogg".to_string(),
        "clip.ogg".to_string(),
        "English".to_string(),
        "French".to_string(),
    )
}

fn release_count(actions: &[PipeAction]) -> usize {
    actions
        .iter()
        .filter(|a| matches!(a, PipeAction::Release))
        .count()
}

fn pipe_action_name(action: &PipeAction) -> &'static str {
    match action {
        PipeAction::Fetch => "Fetch",
        PipeAction::ReadFile => "ReadFile",
        PipeAction::CallGateway(_) => "CallGateway",
        PipeAction::Release => "Release",
        PipeAction::Reply(_) => "Reply",
        PipeAction::ReplyError(_) => "ReplyError",
    }
}

#[test]
fn transcription_run_encodes_audio_and_releases_before_reply() {
    let audio: Vec<u8> = vec![0x4f, 0x67, 0x67, 0x53, 0x00, 0x02, 0xff, 0x81];

    let pipeline = fresh_pipeline();
    let (pipeline, actions) = pipeline.step(PipeEvent::Start);
    assert!(matches!(actions[..], [PipeAction::Fetch]));
    assert_eq!(pipeline.state, PipeState::Fetching);

    let (pipeline, actions) = pipeline.step(PipeEvent::FetchOk);
    assert!(matches!(actions[..], [PipeAction::ReadFile]));

    let (pipeline, actions) = pipeline.step(PipeEvent::ReadOk(audio.clone()));
    assert_eq!(actions.len(), 1);
    match &actions[0] {
        PipeAction::CallGateway(request) => {
            assert_eq!(request.input, general_purpose::STANDARD.encode(&audio));
            assert_eq!(request.source_language, "English");
            assert_eq!(request.target_language, "French");
            assert_eq!(request.task_string, "speech2text");
        }
        other => panic!("expected a gateway call, got {:?}", pipe_action_name(other)),
    }

    // the service answers with a base64-wrapped JSON string
    let encoded = general_purpose::STANDARD.encode("transcribed words");
    let body = format!("\"{}\"", encoded).into_bytes();
    let (pipeline, actions) = pipeline.step(PipeEvent::GatewayResponse(200, body));
    assert!(matches!(actions[..], [PipeAction::Release]));
    assert_eq!(pipeline.state, PipeState::Releasing);

    let (pipeline, actions) = pipeline.step(PipeEvent::ReleaseOk);
    assert_eq!(pipeline.state, PipeState::Done);
    match &actions[0] {
        PipeAction::Reply(text) => assert_eq!(text, "transcribed words"),
        other => panic!("expected the transcribed reply, got {:?}", pipe_action_name(other)),
    }
}

#[test]
fn decode_error_still_releases_file() {
    let pipeline = fresh_pipeline();
    let (pipeline, _) = pipeline.step(PipeEvent::Start);
    let (pipeline, _) = pipeline.step(PipeEvent::FetchOk);
    let (pipeline, _) = pipeline.step(PipeEvent::ReadOk(vec![1, 2, 3]));

    // the service answers with a body that is not a JSON string
    let (pipeline, actions) = pipeline.step(PipeEvent::GatewayResponse(200, b"oops".to_vec()));
    assert_eq!(release_count(&actions), 1);
    assert_eq!(pipeline.state, PipeState::Releasing);

    let (pipeline, actions) = pipeline.step(PipeEvent::ReleaseOk);
    assert_eq!(pipeline.state, PipeState::Done);
    match &actions[0] {
        PipeAction::ReplyError(message) => {
            assert!(message.contains("not a JSON string"));
        }
        other => panic!("expected an error reply, got {:?}", pipe_action_name(other)),
    }
}

#[test]
fn transport_failure_still_releases_file() {
    let pipeline = fresh_pipeline();
    let (pipeline, _) = pipeline.step(PipeEvent::Start);
    let (pipeline, _) = pipeline.step(PipeEvent::FetchOk);
    let (pipeline, _) = pipeline.step(PipeEvent::ReadOk(vec![9]));
    let (pipeline, actions) =
        pipeline.step(PipeEvent::GatewayFailed("connection reset".to_string()));
    assert_eq!(release_count(&actions), 1);
    let (_, actions) = pipeline.step(PipeEvent::ReleaseOk);
    match &actions[0] {
        PipeAction::ReplyError(message) => assert_eq!(message, "connection reset"),
        other => panic!("expected an error reply, got {:?}", pipe_action_name(other)),
    }
}

#[test]
fn http_error_status_still_releases_file() {
    let pipeline = fresh_pipeline();
    let (pipeline, _) = pipeline.step(PipeEvent::Start);
    let (pipeline, _) = pipeline.step(PipeEvent::FetchOk);
    let (pipeline, _) = pipeline.step(PipeEvent::ReadOk(vec![9]));
    let (pipeline, actions) =
        pipeline.step(PipeEvent::GatewayResponse(500, br#""ignored""#.to_vec()));
    assert_eq!(release_count(&actions), 1);
    let (_, actions) = pipeline.step(PipeEvent::ReleaseOk);
    match &actions[0] {
        PipeAction::ReplyError(message) => assert!(message.contains("500")),
        other => panic!("expected an error reply, got {:?}", pipe_action_name(other)),
    }
}

#[test]
fn fetch_failure_releases_partial_file() {
    let pipeline = fresh_pipeline();
    let (pipeline, _) = pipeline.step(PipeEvent::Start);
    let (pipeline, actions) = pipeline.step(PipeEvent::FetchErr("download failed".to_string()));
    assert_eq!(release_count(&actions), 1);
    assert_eq!(pipeline.state, PipeState::Releasing);
    let (pipeline, actions) = pipeline.step(PipeEvent::ReleaseOk);
    assert_eq!(pipeline.state, PipeState::Done);
    match &actions[0] {
        PipeAction::ReplyError(message) => assert_eq!(message, "download failed"),
        other => panic!("expected an error reply, got {:?}", pipe_action_name(other)),
    }
}

#[test]
fn release_failure_does_not_suppress_reply() {
    let audio: Vec<u8> = vec![1, 2, 3];
    let pipeline = fresh_pipeline();
    let (pipeline, _) = pipeline.step(PipeEvent::Start);
    let (pipeline, _) = pipeline.step(PipeEvent::FetchOk);
    let (pipeline, _) = pipeline.step(PipeEvent::ReadOk(audio));
    let encoded = general_purpose::STANDARD.encode("still delivered");
    let body = format!("\"{}\"", encoded).into_bytes();
    let (pipeline, _) = pipeline.step(PipeEvent::GatewayResponse(200, body));
    let (pipeline, actions) =
        pipeline.step(PipeEvent::ReleaseErr("permission denied".to_string()));
    assert_eq!(pipeline.state, PipeState::Done);
    match &actions[0] {
        PipeAction::Reply(text) => assert_eq!(text, "still delivered"),
        other => panic!("expected the reply, got {:?}", pipe_action_name(other)),
    }
}

#[test]
fn whole_run_releases_exactly_once() {
    let events = vec![
        PipeEvent::Start,
        PipeEvent::FetchOk,
        PipeEvent::ReadOk(vec![42]),
        PipeEvent::GatewayResponse(200, b"broken".to_vec()),
        PipeEvent::ReleaseOk,
    ];
    let mut pipeline = fresh_pipeline();
    let mut releases = 0;
    for event in events {
        let (next, actions) = pipeline.step(event);
        releases += release_count(&actions);
        pipeline = next;
    }
    assert_eq!(pipeline.state, PipeState::Done);
    assert_eq!(releases, 1);
}
