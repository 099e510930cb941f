//! The attachment pipeline for transcription requests.  A remote audio
//! attachment is fetched to a local transient file, read and
//! base64-encoded for transport, sent to the gateway, and the local copy
//! is deleted before the run ends — on every exit path, including fetch,
//! read, transport and decode failures.  The pipeline is a state machine
//! from state and event to next state and actions; the surrounding event
//! loop performs the I/O actions and feeds the results back in.

use vstd::prelude::*;
use crate::b64::{b64_encode, b64_encode_spec, lemma_b64_encode_ascii};
use crate::text::{ascii_bytes_to_string, ascii_view};
use crate::translation::{decode_response, decode_response_spec};
use crate::types::{SubnetPost, SubnetPostV, TASK_SPEECH_TO_TEXT};

verus! {

/// The lifecycle states of one pipeline run.
#[derive(Clone, Copy, Debug, PartialEq, Eq, Structural)]
pub enum PipeState {
    /// Nothing has happened yet.
    Init,
    /// The fetch of the remote attachment is in flight.
    Fetching,
    /// The local copy exists and is being read.
    Reading,
    /// The transcription request is in flight.
    AwaitingGateway,
    /// The outcome is decided; the local copy is being deleted.
    Releasing,
    /// Terminal: the transient file is gone and the reply was issued.
    Done,
}

/// One transcription run over a fetched attachment.
pub struct Pipeline {
    /// Where the attachment is hosted.
    pub url: String,
    /// The transient file's local name.
    pub filename: String,
    /// The audio's language, as chosen by the user.
    pub source_language: String,
    /// The language to transcribe into.
    pub target_language: String,
    /// Lifecycle state.
    pub state: PipeState,
    /// The reply to send once the transient file is released.
    pub outcome: Option<Result<String, String>>,
}

/// The mathematical content of a `Pipeline`.
pub struct PipelineV {
    pub url: Seq<char>,
    pub filename: Seq<char>,
    pub source_language: Seq<char>,
    pub target_language: Seq<char>,
    pub state: PipeState,
    pub outcome: Option<Result<Seq<char>, Seq<char>>>,
}

impl View for Pipeline {
    type V = PipelineV;

    open spec fn view(&self) -> PipelineV {
        PipelineV {
            url: self.url@,
            filename: self.filename@,
            source_language: self.source_language@,
            target_language: self.target_language@,
            state: self.state,
            outcome: match self.outcome {
                None => None,
                Some(Ok(text)) => Some(Ok(text@)),
                Some(Err(msg)) => Some(Err(msg@)),
            },
        }
    }
}

/// What can happen to a pipeline run.
pub enum PipeEvent {
    /// Kick the run off.
    Start,
    /// The fetch completed and the local file is in place.
    FetchOk,
    /// The fetch failed; the payload is the user-facing description.
    FetchErr(String),
    /// The local file was read fully.
    ReadOk(Vec<u8>),
    /// The local file could not be read.
    ReadErr(String),
    /// The gateway answered with a status and a raw body.
    GatewayResponse(u16, Vec<u8>),
    /// The gateway call failed in transport.
    GatewayFailed(String),
    /// The local file was deleted.
    ReleaseOk,
    /// The local file could not be deleted.
    ReleaseErr(String),
}

/// The mathematical content of a `PipeEvent`.
pub enum PipeEventV {
    Start,
    FetchOk,
    FetchErr(Seq<char>),
    ReadOk(Seq<u8>),
    ReadErr(Seq<char>),
    GatewayResponse(u16, Seq<u8>),
    GatewayFailed(Seq<char>),
    ReleaseOk,
    ReleaseErr(Seq<char>),
}

impl View for PipeEvent {
    type V = PipeEventV;

    open spec fn view(&self) -> PipeEventV {
        match self {
            PipeEvent::Start => PipeEventV::Start,
            PipeEvent::FetchOk => PipeEventV::FetchOk,
            PipeEvent::FetchErr(msg) => PipeEventV::FetchErr(msg@),
            PipeEvent::ReadOk(bytes) => PipeEventV::ReadOk(bytes@),
            PipeEvent::ReadErr(msg) => PipeEventV::ReadErr(msg@),
            PipeEvent::GatewayResponse(status, body) => PipeEventV::GatewayResponse(
                *status,
                body@,
            ),
            PipeEvent::GatewayFailed(msg) => PipeEventV::GatewayFailed(msg@),
            PipeEvent::ReleaseOk => PipeEventV::ReleaseOk,
            PipeEvent::ReleaseErr(msg) => PipeEventV::ReleaseErr(msg@),
        }
    }
}

/// What the event loop must do on the pipeline's behalf.
pub enum PipeAction {
    /// Download the attachment at the pipeline's URL to its filename.
    Fetch,
    /// Read the local file fully.
    ReadFile,
    /// Send the transcription request to the service.
    CallGateway(SubnetPost),
    /// Delete the local file.
    Release,
    /// Reply with the transcribed text.
    Reply(String),
    /// Reply with a failure description.
    ReplyError(String),
}

/// The mathematical content of a `PipeAction`.
pub enum PipeActionV {
    Fetch,
    ReadFile,
    CallGateway(SubnetPostV),
    Release,
    Reply(Seq<char>),
    ReplyError(Seq<char>),
}

impl View for PipeAction {
    type V = PipeActionV;

    open spec fn view(&self) -> PipeActionV {
        match self {
            PipeAction::Fetch => PipeActionV::Fetch,
            PipeAction::ReadFile => PipeActionV::ReadFile,
            PipeAction::CallGateway(post) => PipeActionV::CallGateway(post@),
            PipeAction::Release => PipeActionV::Release,
            PipeAction::Reply(text) => PipeActionV::Reply(text@),
            PipeAction::ReplyError(msg) => PipeActionV::ReplyError(msg@),
        }
    }
}

/// The views of a sequence of pipeline actions.
pub open spec fn pipe_actions_view(v: Seq<PipeAction>) -> Seq<PipeActionV> {
    v.map_values(|a: PipeAction| a@)
}

/// The request a pipeline sends for the audio bytes it read: the payload
/// is the base64 encoding of the raw bytes.
pub open spec fn transcription_request(p: PipelineV, bytes: Seq<u8>) -> SubnetPostV {
    SubnetPostV {
        input: ascii_view(b64_encode_spec(bytes)),
        source_language: p.source_language,
        target_language: p.target_language,
        task_string: TASK_SPEECH_TO_TEXT@,
    }
}

/// One transition of the pipeline state machine.  The transcription
/// endpoint base64-wraps the string it returns, so the reply is decoded
/// with `wrapped` set.
pub open spec fn spec_pipe_step(p: PipelineV, e: PipeEventV) -> (PipelineV, Seq<PipeActionV>) {
    match p.state {
        PipeState::Init => match e {
            PipeEventV::Start => (
                PipelineV { state: PipeState::Fetching, ..p },
                seq![PipeActionV::Fetch],
            ),
            _ => (p, seq![]),
        },
        PipeState::Fetching => match e {
            PipeEventV::FetchOk => (
                PipelineV { state: PipeState::Reading, ..p },
                seq![PipeActionV::ReadFile],
            ),
            PipeEventV::FetchErr(msg) => (
                PipelineV { state: PipeState::Releasing, outcome: Some(Err(msg)), ..p },
                seq![PipeActionV::Release],
            ),
            _ => (p, seq![]),
        },
        PipeState::Reading => match e {
            PipeEventV::ReadOk(bytes) => (
                PipelineV { state: PipeState::AwaitingGateway, ..p },
                seq![PipeActionV::CallGateway(transcription_request(p, bytes))],
            ),
            PipeEventV::ReadErr(msg) => (
                PipelineV { state: PipeState::Releasing, outcome: Some(Err(msg)), ..p },
                seq![PipeActionV::Release],
            ),
            _ => (p, seq![]),
        },
        PipeState::AwaitingGateway => match e {
            PipeEventV::GatewayResponse(status, body) => match decode_response_spec(
                status,
                body,
                true,
            ) {
                Ok(text) => (
                    PipelineV { state: PipeState::Releasing, outcome: Some(Ok(text)), ..p },
                    seq![PipeActionV::Release],
                ),
                Err(ge) => (
                    PipelineV {
                        state: PipeState::Releasing,
                        outcome: Some(Err(ge.message_spec())),
                        ..p
                    },
                    seq![PipeActionV::Release],
                ),
            },
            PipeEventV::GatewayFailed(msg) => (
                PipelineV { state: PipeState::Releasing, outcome: Some(Err(msg)), ..p },
                seq![PipeActionV::Release],
            ),
            _ => (p, seq![]),
        },
        PipeState::Releasing => match e {
            PipeEventV::ReleaseOk | PipeEventV::ReleaseErr(_) => (
                PipelineV { state: PipeState::Done, outcome: None, ..p },
                match p.outcome {
                    Some(Ok(text)) => seq![PipeActionV::Reply(text)],
                    Some(Err(msg)) => seq![PipeActionV::ReplyError(msg)],
                    None => seq![],
                },
            ),
            _ => (p, seq![]),
        },
        PipeState::Done => (p, seq![]),
    }
}

impl Pipeline {
    /// Opens a pipeline run for one attachment.
    pub fn start(url: String, filename: String, source_language: String, target_language: String)
        -> (p: Pipeline)
        ensures
            p@.url == url@,
            p@.filename == filename@,
            p@.source_language == source_language@,
            p@.target_language == target_language@,
            p@.state is Init,
            p@.outcome is None,
    {
        Pipeline {
            url,
            filename,
            source_language,
            target_language,
            state: PipeState::Init,
            outcome: None,
        }
    }

    /// One transition: feeds an event to the pipeline, yielding the next
    /// pipeline and the actions the event loop must perform, exactly as
    /// `spec_pipe_step` says.
    #[verifier::rlimit(100)]
    pub fn step(self, event: PipeEvent) -> (r: (Pipeline, Vec<PipeAction>))
        ensures
            r.0@ == spec_pipe_step(self@, event@).0,
            pipe_actions_view(r.1@) == spec_pipe_step(self@, event@).1,
    {
        let mut actions: Vec<PipeAction> = Vec::new();
        proof {
            assert(pipe_actions_view(actions@) =~= Seq::<PipeActionV>::empty());
        }
        match self.state {
            PipeState::Init => match event {
                PipeEvent::Start => {
                    actions.push(PipeAction::Fetch);
                    let next = Pipeline { state: PipeState::Fetching, ..self };
                    proof {
                        assert(pipe_actions_view(actions@) =~= seq![PipeActionV::Fetch]);
                    }
                    (next, actions)
                },
                _ => (self, actions),
            },
            PipeState::Fetching => match event {
                PipeEvent::FetchOk => {
                    actions.push(PipeAction::ReadFile);
                    let next = Pipeline { state: PipeState::Reading, ..self };
                    proof {
                        assert(pipe_actions_view(actions@) =~= seq![PipeActionV::ReadFile]);
                    }
                    (next, actions)
                },
                PipeEvent::FetchErr(msg) => {
                    actions.push(PipeAction::Release);
                    let next = Pipeline {
                        state: PipeState::Releasing,
                        outcome: Some(Err(msg)),
                        ..self
                    };
                    proof {
                        assert(pipe_actions_view(actions@) =~= seq![PipeActionV::Release]);
                    }
                    (next, actions)
                },
                _ => (self, actions),
            },
            PipeState::Reading => match event {
                PipeEvent::ReadOk(bytes) => {
                    let ghost expected = spec_pipe_step(self@, event@).1;
                    let encoded = b64_encode(&bytes);
                    proof {
                        lemma_b64_encode_ascii(bytes@);
                    }
                    let input = ascii_bytes_to_string(encoded);
                    let request = SubnetPost {
                        input,
                        source_language: self.source_language.clone(),
                        target_language: self.target_language.clone(),
                        task_string: String::from_str(TASK_SPEECH_TO_TEXT),
                    };
                    actions.push(PipeAction::CallGateway(request));
                    let next = Pipeline { state: PipeState::AwaitingGateway, ..self };
                    proof {
                        assert(pipe_actions_view(actions@) =~= expected);
                    }
                    (next, actions)
                },
                PipeEvent::ReadErr(msg) => {
                    actions.push(PipeAction::Release);
                    let next = Pipeline {
                        state: PipeState::Releasing,
                        outcome: Some(Err(msg)),
                        ..self
                    };
                    proof {
                        assert(pipe_actions_view(actions@) =~= seq![PipeActionV::Release]);
                    }
                    (next, actions)
                },
                _ => (self, actions),
            },
            PipeState::AwaitingGateway => match event {
                PipeEvent::GatewayResponse(status, body) => {
                    let outcome = match decode_response(status, &body, true) {
                        Ok(text) => Some(Ok(text)),
                        Err(ge) => Some(Err(ge.message())),
                    };
                    actions.push(PipeAction::Release);
                    let next = Pipeline { state: PipeState::Releasing, outcome, ..self };
                    proof {
                        assert(pipe_actions_view(actions@) =~= seq![PipeActionV::Release]);
                    }
                    (next, actions)
                },
                PipeEvent::GatewayFailed(msg) => {
                    actions.push(PipeAction::Release);
                    let next = Pipeline {
                        state: PipeState::Releasing,
                        outcome: Some(Err(msg)),
                        ..self
                    };
                    proof {
                        assert(pipe_actions_view(actions@) =~= seq![PipeActionV::Release]);
                    }
                    (next, actions)
                },
                _ => (self, actions),
            },
            PipeState::Releasing => match event {
                PipeEvent::ReleaseOk | PipeEvent::ReleaseErr(_) => {
                    let ghost expected = spec_pipe_step(self@, event@).1;
                    let outcome = self.outcome;
                    let next = Pipeline { state: PipeState::Done, outcome: None, ..self };
                    match outcome {
                        Some(Ok(text)) => {
                            actions.push(PipeAction::Reply(text));
                        },
                        Some(Err(msg)) => {
                            actions.push(PipeAction::ReplyError(msg));
                        },
                        None => {},
                    }
                    proof {
                        assert(pipe_actions_view(actions@) =~= expected);
                    }
                    (next, actions)
                },
                _ => (self, actions),
            },
            PipeState::Done => (self, actions),
        }
    }
}

/// Folds a whole event sequence through the pipeline, collecting every
/// action it emits.
pub open spec fn spec_pipe_run(p: PipelineV, es: Seq<PipeEventV>) -> (PipelineV, Seq<PipeActionV>)
    decreases es.len(),
{
    if es.len() == 0 {
        (p, seq![])
    } else {
        let first = spec_pipe_step(p, es[0]);
        let rest = spec_pipe_run(first.0, es.drop_first());
        (rest.0, first.1 + rest.1)
    }
}

/// How many release actions a sequence of actions contains.
pub open spec fn release_count(actions: Seq<PipeActionV>) -> nat
    decreases actions.len(),
{
    if actions.len() == 0 {
        0
    } else {
        (if actions[0] is Release {
            1nat
        } else {
            0nat
        }) + release_count(actions.drop_first())
    }
}

/// Release counting distributes over concatenation.
pub proof fn lemma_release_count_concat(a: Seq<PipeActionV>, b: Seq<PipeActionV>)
    ensures
        release_count(a + b) == release_count(a) + release_count(b),
    decreases a.len(),
{
    if a.len() == 0 {
        assert(a + b =~= b);
    } else {
        assert((a + b).drop_first() =~= a.drop_first() + b);
        lemma_release_count_concat(a.drop_first(), b);
    }
}

/// The release count of a sequence of at most one action.
proof fn lemma_release_count_short(a: Seq<PipeActionV>)
    requires
        a.len() <= 1,
    ensures
        release_count(a) == (if a.len() == 1 && a[0] is Release {
            1nat
        } else {
            0nat
        }),
{
    assert(release_count(Seq::<PipeActionV>::empty()) == 0);
    if a.len() == 1 {
        assert(a.drop_first() =~= Seq::<PipeActionV>::empty());
    }
}

/// One release is owed exactly from the moment the outcome is decided.
pub open spec fn released(st: PipeState) -> nat {
    match st {
        PipeState::Releasing | PipeState::Done => 1,
        _ => 0,
    }
}

/// Counts the releases a run performs, by where it ends: a run that
/// reaches the release phase — on any path, a decode failure included —
/// deletes the transient file exactly once, and a run that has not
/// reached it yet has deleted nothing.
pub proof fn lemma_release_matches_state(p: PipelineV, es: Seq<PipeEventV>)
    requires
        released(p.state) == 0,
    ensures
        release_count(spec_pipe_run(p, es).1) == released(spec_pipe_run(p, es).0.state),
    decreases es.len(),
{
    if es.len() == 0 {
        return ;
    }
    let first = spec_pipe_step(p, es[0]);
    let rest = spec_pipe_run(first.0, es.drop_first());
    lemma_release_count_short(first.1);
    if released(first.0.state) == 0 {
        lemma_release_matches_state(first.0, es.drop_first());
    } else {
        lemma_release_never_repeats(first.0, es.drop_first());
    }
    lemma_release_count_concat(first.1, rest.1);
}

/// Once the transient file is released, no later event releases it again.
pub proof fn lemma_release_never_repeats(p: PipelineV, es: Seq<PipeEventV>)
    requires
        released(p.state) == 1,
    ensures
        release_count(spec_pipe_run(p, es).1) == 0,
        released(spec_pipe_run(p, es).0.state) == 1,
    decreases es.len(),
{
    if es.len() == 0 {
        return ;
    }
    let first = spec_pipe_step(p, es[0]);
    let rest = spec_pipe_run(first.0, es.drop_first());
    lemma_release_count_short(first.1);
    lemma_release_never_repeats(first.0, es.drop_first());
    lemma_release_count_concat(first.1, rest.1);
}

/// No transient file survives a pipeline run: a run that ends (or is
/// winding down) has released its file exactly once, whatever mixture of
/// successes and failures drove it there.
pub proof fn lemma_no_transient_file_survives(p: PipelineV, es: Seq<PipeEventV>)
    requires
        p.state is Init,
    ensures
        release_count(spec_pipe_run(p, es).1) <= 1,
        spec_pipe_run(p, es).0.state is Done || spec_pipe_run(p, es).0.state is Releasing
            ==> release_count(spec_pipe_run(p, es).1) == 1,
{
    lemma_release_matches_state(p, es);
}

} // verus!
